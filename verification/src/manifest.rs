//! The pure parts of manifest generation: which files belong in a
//! manifest, and the content hash recorded for each file.  Walking the
//! repository, reading files and writing the manifest happen outside the
//! library.

use vstd::prelude::*;
use crate::text::{has_sub, str_contains, str_eq};

verus! {

/// The SHA-256 digest of a byte sequence, as the sha2 crate computes
/// it.  The digest depends on the bytes alone.
pub uninterp spec fn sha256_of(data: Seq<u8>) -> Seq<u8>;

/// Relies on sha2::Sha256::digest: a 32-byte digest computed from the
/// input bytes alone.
#[verifier::external_body]
fn sha256_digest(data: &[u8]) -> (r: Vec<u8>)
    ensures
        r@ == sha256_of(data@),
        r@.len() == 32,
{
    let digest = <sha2::Sha256 as sha2::Digest>::digest(data);
    digest.to_vec()
}

/// The lower-case hexadecimal digit of a value below sixteen.
pub open spec fn hex_digit(v: int) -> char {
    if v == 0 {
        '0'
    } else if v == 1 {
        '1'
    } else if v == 2 {
        '2'
    } else if v == 3 {
        '3'
    } else if v == 4 {
        '4'
    } else if v == 5 {
        '5'
    } else if v == 6 {
        '6'
    } else if v == 7 {
        '7'
    } else if v == 8 {
        '8'
    } else if v == 9 {
        '9'
    } else if v == 10 {
        'a'
    } else if v == 11 {
        'b'
    } else if v == 12 {
        'c'
    } else if v == 13 {
        'd'
    } else if v == 14 {
        'e'
    } else {
        'f'
    }
}

/// Lower-case hexadecimal rendering: two digits per byte, in order.
pub open spec fn hex_of(data: Seq<u8>) -> Seq<char> {
    Seq::new(2 * data.len(), |i: int| hex_digit(if i % 2 == 0 {
        data[i / 2] / 16
    } else {
        data[i / 2] % 16
    } as int))
}

fn hex_digit_char(v: u8) -> (c: char)
    requires
        v < 16,
    ensures
        c == hex_digit(v as int),
{
    if v < 10 {
        (48u8 + v) as char
    } else {
        (97u8 + (v - 10)) as char
    }
}

/// The lower-case hexadecimal rendering of a byte string.
pub fn to_hex(data: &Vec<u8>) -> (r: String)
    requires
        data@.len() <= usize::MAX / 2,
    ensures
        r@ == hex_of(data@),
{
    let mut r = String::new();
    let mut i: usize = 0;
    while i < data.len()
        invariant
            data@.len() <= usize::MAX / 2,
            i <= data@.len(),
            r@ =~= hex_of(data@).take(2 * i as int),
        decreases data@.len() - i,
    {
        let b = data[i];
        let hi = hex_digit_char(b / 16);
        let lo = hex_digit_char(b % 16);
        let mut two = String::new();
        two.push(hi);
        two.push(lo);
        r.append(two.as_str());
        proof {
            assert(hex_of(data@)[2 * i as int] == hex_digit((data@[i as int] / 16) as int));
            assert(hex_of(data@)[2 * i as int + 1] == hex_digit((data@[i as int] % 16) as int));
            assert(r@ =~= hex_of(data@).take(2 * (i + 1)));
        }
        i = i + 1;
    }
    proof {
        assert(r@ =~= hex_of(data@));
    }
    r
}

/// The content hash recorded in a manifest for a file with the given
/// bytes: the lower-case hexadecimal SHA-256 digest, 64 digits.
pub fn compute_sha256_hex(data: &[u8]) -> (r: String)
    ensures
        r@ == hex_of(sha256_of(data@)),
        r@.len() == 64,
{
    let digest = sha256_digest(data);
    to_hex(&digest)
}

/// The final component of a path: what follows the last separator.
pub open spec fn spec_file_name(path: Seq<char>) -> Seq<char>
    decreases path.len(),
{
    if path.len() == 0 {
        path
    } else if path.last() == '/' || path.last() == '\\' {
        Seq::empty()
    } else {
        spec_file_name(path.drop_last()).push(path.last())
    }
}

/// The final component of a path.
pub fn file_name(path: &str) -> (r: String)
    ensures
        r@ == spec_file_name(path@),
{
    let cs = crate::text::chars_of(path);
    let mut r = String::new();
    let mut i: usize = 0;
    while i < cs.len()
        invariant
            cs@ == path@,
            i <= cs@.len(),
            r@ =~= spec_file_name(path@.take(i as int)),
        decreases cs@.len() - i,
    {
        let c = cs[i];
        proof {
            assert(path@.take(i + 1).drop_last() =~= path@.take(i as int));
            assert(path@.take(i + 1).last() == path@[i as int]);
        }
        if c == '/' || c == '\\' {
            let empty = String::new();
            r = empty;
        } else {
            let mut one = String::new();
            one.push(c);
            r.append(one.as_str());
        }
        i = i + 1;
    }
    proof {
        assert(path@.take(path@.len() as int) =~= path@);
    }
    r
}

/// Paths excluded from a manifest: source-control artifacts, reference
/// material, housekeeping files, and (for the governance manifest) the
/// generated manifests themselves.
pub open spec fn spec_should_exclude(path: Seq<char>, is_governance: bool) -> bool {
    ||| has_sub(path, ".git"@)
    ||| has_sub(path, "_reference/"@)
    ||| has_sub(path, "_reference\\"@)
    ||| spec_file_name(path) == ".gitignore"@
    ||| spec_file_name(path) == ".gitattributes"@
    ||| spec_file_name(path) == "CODEOWNERS"@
    ||| (is_governance && (has_sub(path, "manifests/"@) || has_sub(path, "manifests\\"@)))
}

/// Whether a file is excluded from the manifest.
pub fn should_exclude(path: &str, is_governance: bool) -> (r: bool)
    ensures
        r == spec_should_exclude(path@, is_governance),
{
    if str_contains(path, ".git") || str_contains(path, "_reference/") || str_contains(
        path,
        "_reference\\",
    ) {
        return true;
    }
    let name = file_name(path);
    if str_eq(name.as_str(), ".gitignore") || str_eq(name.as_str(), ".gitattributes") || str_eq(
        name.as_str(),
        "CODEOWNERS",
    ) {
        return true;
    }
    is_governance && (str_contains(path, "manifests/") || str_contains(path, "manifests\\"))
}

} // verus!
