//! The pure checks behind no-debt enforcement: which paths are in
//! scope, and which textual rules a document body violates.  Walking the
//! repository and reading files happens outside the library; each check
//! here takes the text as a value.

use vstd::prelude::*;
use crate::text::{has_sub, str_contains};

verus! {

/// Paths excluded from enforcement.
pub open spec fn spec_should_exclude(path: Seq<char>) -> bool {
    ||| has_sub(path, "_deprecated/"@)
    ||| has_sub(path, "_deprecated\\"@)
    ||| has_sub(path, "_reference/"@)
    ||| has_sub(path, "_reference\\"@)
    ||| has_sub(path, ".git/"@)
    ||| has_sub(path, ".git\\"@)
    ||| has_sub(path, "/target/"@)
    ||| has_sub(path, "\\target\\"@)
    ||| has_sub(path, "manifests/"@)
    ||| has_sub(path, "manifests\\"@)
}

/// Whether a path is excluded from enforcement: deprecated and reference
/// material, source-control and build artifacts, and generated manifests.
pub fn should_exclude(path: &str) -> (r: bool)
    ensures
        r == spec_should_exclude(path@),
{
    str_contains(path, "_deprecated/") || str_contains(path, "_deprecated\\") || str_contains(
        path,
        "_reference/",
    ) || str_contains(path, "_reference\\") || str_contains(path, ".git/") || str_contains(
        path,
        ".git\\",
    ) || str_contains(path, "/target/") || str_contains(path, "\\target\\") || str_contains(
        path,
        "manifests/",
    ) || str_contains(path, "manifests\\")
}

/// Whether a path is a governance file, which is excluded from token
/// checks only: governance files describe the rules and necessarily
/// mention the forbidden tokens.
pub fn is_governance_file(path: &str) -> (r: bool)
    ensures
        r == (has_sub(path@, "_governance/"@) || has_sub(path@, "_governance\\"@)),
{
    str_contains(path, "_governance/") || str_contains(path, "_governance\\")
}

/// The forbidden tokens, in check order.
pub open spec fn forbidden_tokens() -> Seq<Seq<char>> {
    seq![
        "TODO"@,
        "TBD"@,
        "FIXME"@,
        "CHANGEME"@,
        "PLACEHOLDER"@,
        "INTENTIONALLY LEFT BLANK"@,
    ]
}

/// The forbidden tokens present in `content`, from position `i` of the
/// token list on, in check order.
pub open spec fn token_findings_from(content: Seq<char>, i: int) -> Seq<Seq<char>>
    decreases forbidden_tokens().len() - i,
{
    if i < 0 || i >= forbidden_tokens().len() {
        Seq::empty()
    } else {
        (if has_sub(content, forbidden_tokens()[i]) {
            seq![forbidden_tokens()[i]]
        } else {
            Seq::empty()
        }) + token_findings_from(content, i + 1)
    }
}

/// Exactly the forbidden tokens that occur in `content`, in check order.
pub fn forbidden_tokens_in(content: &str) -> (found: Vec<String>)
    ensures
        found.deep_view() == token_findings_from(content@, 0),
{
    broadcast use crate::text::lemma_string_vec_deep_view;

    let mut toks: Vec<&str> = Vec::new();
    toks.push("TODO");
    toks.push("TBD");
    toks.push("FIXME");
    toks.push("CHANGEME");
    toks.push("PLACEHOLDER");
    toks.push("INTENTIONALLY LEFT BLANK");
    proof {
        assert forall|x: int| 0 <= x < 6 implies (#[trigger] toks@[x])@ == forbidden_tokens()[x] by {
        }
    }
    let mut found: Vec<String> = Vec::new();
    let mut i: usize = 0;
    while i < toks.len()
        invariant
            toks@.len() == forbidden_tokens().len(),
            forall|x: int| 0 <= x < toks@.len() ==> (#[trigger] toks@[x])@ == forbidden_tokens()[x],
            i <= toks@.len(),
            found.deep_view() + token_findings_from(content@, i as int) =~= token_findings_from(
                content@,
                0,
            ),
        decreases toks@.len() - i,
    {
        let ghost d0 = found.deep_view();
        if str_contains(content, toks[i]) {
            found.push(String::from_str(toks[i]));
        }
        proof {
            let delta = (if has_sub(content@, forbidden_tokens()[i as int]) {
                seq![forbidden_tokens()[i as int]]
            } else {
                Seq::<Seq<char>>::empty()
            });
            assert(found.deep_view() =~= d0 + delta);
            assert((d0 + delta) + token_findings_from(content@, i + 1) =~= d0 + (delta
                + token_findings_from(content@, i + 1)));
        }
        i = i + 1;
    }
    proof {
        assert(found.deep_view() + token_findings_from(content@, toks@.len() as int)
            =~= found.deep_view());
    }
    found
}

/// Whether `content` holds a carriage-return/line-feed pair.
pub fn has_crlf(content: &str) -> (r: bool)
    ensures
        r == has_sub(content@, "\r\n"@),
{
    str_contains(content, "\r\n")
}

/// The character ranges the emoji check scans for.
pub open spec fn is_emoji_char(c: char) -> bool {
    ||| 0x1F300 <= c as u32 <= 0x1F9FF
    ||| 0x2600 <= c as u32 <= 0x26FF
    ||| 0x2700 <= c as u32 <= 0x27BF
    ||| 0x1F600 <= c as u32 <= 0x1F64F
    ||| 0x1F680 <= c as u32 <= 0x1F6FF
}

/// Whether `content` holds any character of the scanned emoji ranges.
pub fn contains_emoji(content: &str) -> (r: bool)
    ensures
        r == exists|i: int| 0 <= i < content@.len() && is_emoji_char(#[trigger] content@[i]),
{
    let cs = crate::text::chars_of(content);
    let mut i: usize = 0;
    while i < cs.len()
        invariant
            cs@ == content@,
            i <= cs@.len(),
            forall|j: int| 0 <= j < i ==> !is_emoji_char(#[trigger] content@[j]),
        decreases cs@.len() - i,
    {
        let u = cs[i] as u32;
        if (0x1F300 <= u && u <= 0x1F9FF) || (0x2600 <= u && u <= 0x26FF) || (0x2700 <= u && u
            <= 0x27BF) || (0x1F600 <= u && u <= 0x1F64F) || (0x1F680 <= u && u <= 0x1F6FF) {
            return true;
        }
        i = i + 1;
    }
    false
}

/// The whitespace class the ellipsis rule skips over: the Unicode
/// white-space characters.
pub open spec fn is_pattern_whitespace(c: char) -> bool {
    ||| 0x09 <= c as u32 <= 0x0D
    ||| c as u32 == 0x20
    ||| c as u32 == 0x85
    ||| c as u32 == 0xA0
    ||| c as u32 == 0x1680
    ||| 0x2000 <= c as u32 <= 0x200A
    ||| c as u32 == 0x2028
    ||| c as u32 == 0x2029
    ||| c as u32 == 0x202F
    ||| c as u32 == 0x205F
    ||| c as u32 == 0x3000
}

/// A line that is an ellipsis and nothing else: optional whitespace,
/// three full stops, optional whitespace.
pub open spec fn is_standalone_ellipsis(line: Seq<char>) -> bool {
    exists|a: int|
        {
            &&& 0 <= a
            &&& a + 3 <= line.len()
            &&& (forall|i: int| 0 <= i < a ==> is_pattern_whitespace(#[trigger] line[i]))
            &&& (#[trigger] line[a]) == '.'
            &&& line[a + 1] == '.'
            &&& line[a + 2] == '.'
            &&& (forall|i: int| a + 3 <= i < line.len() ==> is_pattern_whitespace(#[trigger] line[i]))
        }
}

fn is_ws(c: char) -> (r: bool)
    ensures
        r == is_pattern_whitespace(c),
{
    let u = c as u32;
    (0x09 <= u && u <= 0x0D) || u == 0x20 || u == 0x85 || u == 0xA0 || u == 0x1680 || (0x2000 <= u
        && u <= 0x200A) || u == 0x2028 || u == 0x2029 || u == 0x202F || u == 0x205F || u == 0x3000
}

/// Whether one line of a document is a standalone ellipsis.
pub fn line_is_standalone_ellipsis(line: &str) -> (r: bool)
    ensures
        r == is_standalone_ellipsis(line@),
{
    let cs = crate::text::chars_of(line);
    let n = cs.len();
    let mut a: usize = 0;
    while a < n && is_ws(cs[a])
        invariant
            cs@ == line@,
            n == cs@.len(),
            a <= n,
            forall|j: int| 0 <= j < a ==> is_pattern_whitespace(#[trigger] line@[j]),
        decreases n - a,
    {
        a = a + 1;
    }
    // a is the first position that is not whitespace, or the end
    if n < 3 || a > n - 3 || !(cs[a] == '.' && cs[a + 1] == '.' && cs[a + 2] == '.') {
        proof {
            if is_standalone_ellipsis(line@) {
                let w = choose|w: int|
                    {
                        &&& 0 <= w
                        &&& w + 3 <= line@.len()
                        &&& (forall|i: int| 0 <= i < w ==> is_pattern_whitespace(#[trigger] line@[i]))
                        &&& (#[trigger] line@[w]) == '.'
                        &&& line@[w + 1] == '.'
                        &&& line@[w + 2] == '.'
                        &&& (forall|i: int|
                            w + 3 <= i < line@.len() ==> is_pattern_whitespace(
                                #[trigger] line@[i],
                            ))
                    };
                // the witness can only be the computed boundary: a full
                // stop is not whitespace
                if w < a {
                    assert(is_pattern_whitespace(line@[w]));
                } else if w > a {
                    assert(is_pattern_whitespace(line@[a as int]));
                }
            }
        }
        return false;
    }
    let mut b: usize = a + 3;
    while b < n
        invariant
            cs@ == line@,
            n == cs@.len(),
            a + 3 <= b <= n,
            a + 3 <= n,
            line@[a as int] == '.',
            line@[a + 1] == '.',
            line@[a + 2] == '.',
            forall|j: int| 0 <= j < a ==> is_pattern_whitespace(#[trigger] line@[j]),
            forall|j: int| a + 3 <= j < b ==> is_pattern_whitespace(#[trigger] line@[j]),
        decreases n - b,
    {
        if !is_ws(cs[b]) {
            proof {
                if is_standalone_ellipsis(line@) {
                    let w = choose|w: int|
                        {
                            &&& 0 <= w
                            &&& w + 3 <= line@.len()
                            &&& (forall|i: int|
                                0 <= i < w ==> is_pattern_whitespace(#[trigger] line@[i]))
                            &&& (#[trigger] line@[w]) == '.'
                            &&& line@[w + 1] == '.'
                            &&& line@[w + 2] == '.'
                            &&& (forall|i: int|
                                w + 3 <= i < line@.len() ==> is_pattern_whitespace(
                                    #[trigger] line@[i],
                                ))
                        };
                    if w < a {
                        assert(is_pattern_whitespace(line@[w]));
                    } else if w > a {
                        assert(is_pattern_whitespace(line@[a as int]));
                    }
                    assert(is_pattern_whitespace(line@[b as int]));
                }
            }
            return false;
        }
        b = b + 1;
    }
    proof {
        assert(is_standalone_ellipsis(line@)) by {
            assert((line@[a as int]) == '.' && 0 <= a as int && a as int + 3 <= line@.len() && (
            forall|i: int| 0 <= i < a as int ==> is_pattern_whitespace(#[trigger] line@[i])) && line@[a
                as int + 1] == '.' && line@[a as int + 2] == '.' && (forall|i: int|
                a as int + 3 <= i < line@.len() ==> is_pattern_whitespace(#[trigger] line@[i])));
        }
    }
    true
}

} // verus!
