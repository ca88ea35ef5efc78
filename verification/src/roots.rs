//! Project roots from MCP client `roots`: `file://` URIs are decoded and
//! validated into absolute paths, and the best root is picked among the
//! existing directories.
//!
//! The filesystem side (canonicalizing a path, asking whether it is a
//! directory and whether it holds a project marker) is done by the caller,
//! which hands the results back in [`ResolvedRoot`] values.

use vstd::prelude::*;
use vstd::utf8::{decode_utf8, encode_utf8, valid_utf8};
use crate::text::{chars_of, string_from_chars};

verus! {

/// The bytes of `"file://"`.
pub open spec fn file_scheme() -> Seq<u8> {
    seq![102u8, 105u8, 108u8, 101u8, 58u8, 47u8, 47u8]
}

/// Value of an ASCII hexadecimal digit.
pub open spec fn hex_digit(b: u8) -> Option<u8> {
    if 48 <= b <= 57 {
        Some((b - 48) as u8)
    } else if 97 <= b <= 102 {
        Some((b - 97 + 10) as u8)
    } else if 65 <= b <= 70 {
        Some((b - 65 + 10) as u8)
    } else {
        None
    }
}

/// Percent-decoding of a byte string. `%XY` with two hex digits becomes the
/// byte `0xXY` (a decoded NUL is dropped); a `%` not followed by two hex
/// digits stays `%` and the (at most two) bytes after it are consumed; every
/// other byte stays as it is.
pub open spec fn percent_decoded(b: Seq<u8>) -> Seq<u8>
    decreases b.len(),
{
    if b.len() == 0 {
        Seq::empty()
    } else if b[0] == 37 {
        let hi = if b.len() >= 2 {
            hex_digit(b[1])
        } else {
            None
        };
        let lo = if b.len() >= 3 {
            hex_digit(b[2])
        } else {
            None
        };
        let used: int = if b.len() >= 3 {
            3
        } else {
            b.len() as int
        };
        let head = match (hi, lo) {
            (Some(h), Some(l)) => if h * 16 + l == 0 {
                Seq::<u8>::empty()
            } else {
                seq![(h * 16 + l) as u8]
            },
            _ => seq![37u8],
        };
        head + percent_decoded(b.skip(used))
    } else {
        seq![b[0]] + percent_decoded(b.drop_first())
    }
}

/// Whether the bytes `%00` occur in `b`.
pub open spec fn has_encoded_nul(b: Seq<u8>) -> bool {
    exists|k: int|
        #![trigger b[k]]
        0 <= k && k + 3 <= b.len() && b[k] == 37 && b[k + 1] == 48 && b[k + 2] == 48
}

/// Bytes read one by one as the characters with those code points.
pub open spec fn latin1(b: Seq<u8>) -> Seq<char> {
    b.map_values(|x: u8| x as char)
}

/// The text of decoded path bytes: their UTF-8 reading when they are valid
/// UTF-8, else each byte read as one character.
pub open spec fn path_text(b: Seq<u8>) -> Seq<char> {
    if valid_utf8(b) {
        decode_utf8(b)
    } else {
        latin1(b)
    }
}

/// The local path a `file://` URI names, before canonicalization: the text
/// (see [`path_text`]) of the percent-decoded bytes after the scheme. `None`
/// for a URI without the `file://` scheme, with an encoded NUL (`%00`), or
/// whose path is empty, holds a NUL, or is not absolute (does not start with
/// `/`).
pub open spec fn uri_path(uri: Seq<u8>) -> Option<Seq<char>> {
    if uri.len() < 7 || uri.take(7) != file_scheme() {
        None
    } else {
        let raw = uri.skip(7);
        if has_encoded_nul(raw) {
            None
        } else {
            let d = path_text(percent_decoded(raw));
            if d.len() == 0 || d.contains('\0') {
                None
            } else if d[0] != '/' {
                None
            } else {
                Some(d)
            }
        }
    }
}

/// Calls `String::from_utf8`, which accepts exactly the byte strings that are
/// valid UTF-8 and then holds the characters they encode.
#[verifier::external_body]
fn utf8_string(bytes: Vec<u8>) -> (r: Option<String>)
    ensures
        r is Some <==> valid_utf8(bytes@),
        r matches Some(s) ==> s@ == decode_utf8(bytes@),
{
    String::from_utf8(bytes).ok()
}

fn hex_val(b: u8) -> (r: Option<u8>)
    ensures
        r == hex_digit(b),
{
    if 48 <= b && b <= 57 {
        Some(b - 48)
    } else if 97 <= b && b <= 102 {
        Some(b - 97 + 10)
    } else if 65 <= b && b <= 70 {
        Some(b - 65 + 10)
    } else {
        None
    }
}

/// Each byte as one character.
fn latin1_chars(b: &[u8]) -> (r: Vec<char>)
    ensures
        r@ == latin1(b@),
{
    let mut out: Vec<char> = Vec::new();
    let mut i: usize = 0;
    while i < b.len()
        invariant
            i <= b.len(),
            out@ == latin1(b@.take(i as int)),
        decreases b.len() - i,
    {
        out.push(b[i] as char);
        i = i + 1;
        assert(out@ =~= latin1(b@.take(i as int)));
    }
    assert(b@.take(b.len() as int) =~= b@);
    out
}

fn percent_decode(b: &[u8]) -> (r: Vec<u8>)
    ensures
        r@ == percent_decoded(b@),
{
    let mut out: Vec<u8> = Vec::new();
    let n = b.len();
    let mut i: usize = 0;
    assert(b@.skip(0) =~= b@);
    while i < n
        invariant
            n == b.len(),
            0 <= i <= n,
            out@ + percent_decoded(b@.skip(i as int)) == percent_decoded(b@),
        decreases n - i,
    {
        let ghost rest = b@.skip(i as int);
        let ghost before = out@;
        let c = b[i];
        if c == 37 {
            let hi = if n - i > 1 {
                hex_val(b[i + 1])
            } else {
                None
            };
            let lo = if n - i > 2 {
                hex_val(b[i + 2])
            } else {
                None
            };
            let used: usize = if n - i > 2 {
                3
            } else {
                n - i
            };
            match (hi, lo) {
                (Some(h), Some(l)) => {
                    let byte: u8 = h * 16 + l;
                    if byte != 0 {
                        out.push(byte);
                    }
                },
                _ => {
                    out.push(37);
                },
            }
            proof {
                assert(rest[0] == c);
                if i + 1 < n {
                    assert(rest[1] == b@[i + 1]);
                }
                if i + 2 < n {
                    assert(rest[2] == b@[i + 2]);
                }
                assert(rest.skip(used as int) =~= b@.skip(i + used));
            }
            i = i + used;
        } else {
            out.push(c);
            proof {
                assert(rest[0] == c);
                assert(rest.drop_first() =~= b@.skip(i + 1));
            }
            i = i + 1;
        }
        assert(out@ + percent_decoded(b@.skip(i as int)) =~= percent_decoded(b@));
    }
    assert(out@ + percent_decoded(b@.skip(n as int)) =~= out@);
    out
}

/// Parses a `file://` URI into a validated local path string (see
/// [`uri_path`]): the percent-decoded path is read as UTF-8, or byte by byte
/// when it is not valid UTF-8; other schemes, encoded NULs, empty or relative
/// paths are rejected. The result still has to be canonicalized against the
/// filesystem.
pub fn uri_to_path(uri: &str) -> (r: Option<String>)
    ensures
        r matches Some(p) ==> uri_path(encode_utf8(uri@)) == Some(p@),
        r is None ==> uri_path(encode_utf8(uri@)) is None,
{
    let b = uri.as_bytes();
    let n = b.len();
    assert(b@ == encode_utf8(uri@));
    if n < 7 || b[0] != 102 || b[1] != 105 || b[2] != 108 || b[3] != 101 || b[4] != 58 || b[5]
        != 47 || b[6] != 47 {
        proof {
            if n >= 7 {
                assert(b@.take(7) != file_scheme()) by {
                    if b@.take(7) == file_scheme() {
                        assert(b@.take(7)[0] == b@[0]);
                        assert(b@.take(7)[1] == b@[1]);
                        assert(b@.take(7)[2] == b@[2]);
                        assert(b@.take(7)[3] == b@[3]);
                        assert(b@.take(7)[4] == b@[4]);
                        assert(b@.take(7)[5] == b@[5]);
                        assert(b@.take(7)[6] == b@[6]);
                    }
                }
            }
        }
        return None;
    }
    assert(b@.take(7) =~= file_scheme());
    let mut raw: Vec<u8> = Vec::new();
    let mut i: usize = 7;
    while i < n
        invariant
            n == b.len(),
            7 <= i <= n,
            raw@ == b@.subrange(7, i as int),
        decreases n - i,
    {
        raw.push(b[i]);
        i = i + 1;
        assert(raw@ =~= b@.subrange(7, i as int));
    }
    assert(raw@ =~= b@.skip(7));
    // Reject an encoded NUL before decoding.
    let mut k: usize = 0;
    while k < raw.len() && raw.len() - k > 2
        invariant
            0 <= k <= raw.len(),
            raw@ == b@.skip(7),
            b@ == encode_utf8(uri@),
            b@.take(7) == file_scheme(),
            forall|m: int|
                #![trigger raw@[m]]
                0 <= m < k && m + 3 <= raw@.len() ==> !(raw@[m] == 37 && raw@[m + 1] == 48 && raw@[m
                    + 2] == 48),
        decreases raw.len() - k,
    {
        if raw[k] == 37 && raw[k + 1] == 48 && raw[k + 2] == 48 {
            assert(has_encoded_nul(raw@));
            return None;
        }
        k = k + 1;
    }
    assert(!has_encoded_nul(raw@));
    let bytes = percent_decode(raw.as_slice());
    let latin = latin1_chars(bytes.as_slice());
    let decoded = match utf8_string(bytes) {
        Some(t) => chars_of(t.as_str()),
        None => latin,
    };
    assert(decoded@ == path_text(percent_decoded(raw@)));
    if decoded.len() == 0 {
        return None;
    }
    let mut j: usize = 0;
    while j < decoded.len()
        invariant
            0 <= j <= decoded.len(),
            raw@ == b@.skip(7),
            b@ == encode_utf8(uri@),
            b@.take(7) == file_scheme(),
            !has_encoded_nul(raw@),
            decoded@ == path_text(percent_decoded(raw@)),
            forall|m: int| 0 <= m < j ==> decoded@[m] != '\0',
        decreases decoded.len() - j,
    {
        if decoded[j] == '\0' {
            assert(decoded@.contains('\0'));
            return None;
        }
        j = j + 1;
    }
    assert(!decoded@.contains('\0'));
    if decoded[0] != '/' {
        return None;
    }
    Some(string_from_chars(decoded.as_slice()))
}

/// A decoded root after the filesystem checks: its canonical path, whether
/// that path is an existing directory, and whether it holds a project marker
/// (`.git`, `Cargo.toml`, `package.json`, ...).
pub struct ResolvedRoot {
    pub path: String,
    pub is_dir: bool,
    pub has_marker: bool,
}

/// The paths of the candidates that are directories, in order.
pub open spec fn dir_paths(roots: Seq<ResolvedRoot>) -> Seq<Seq<char>>
    decreases roots.len(),
{
    if roots.len() == 0 {
        Seq::empty()
    } else if roots.last().is_dir {
        dir_paths(roots.drop_last()).push(roots.last().path@)
    } else {
        dir_paths(roots.drop_last())
    }
}

/// Index of the first candidate that is a directory holding a project
/// marker, if any.
pub open spec fn first_marked_dir(roots: Seq<ResolvedRoot>) -> Option<int> {
    if exists|i: int| 0 <= i < roots.len() && (#[trigger] roots[i]).is_dir && roots[i].has_marker {
        Some(
            choose|i: int|
                0 <= i < roots.len() && (#[trigger] roots[i]).is_dir && roots[i].has_marker && forall|
                    j: int,
                | 0 <= j < i ==> !(roots[j].is_dir && roots[j].has_marker),
        )
    } else {
        None
    }
}

/// The paths of the candidates that are existing directories, in order.
pub fn valid_dir_paths_from_uris(roots: &[ResolvedRoot]) -> (r: Vec<String>)
    ensures
        r@.len() == dir_paths(roots@).len(),
        forall|i: int| 0 <= i < r@.len() ==> (#[trigger] r@[i])@ == dir_paths(roots@)[i],
{
    let mut out: Vec<String> = Vec::new();
    let mut i: usize = 0;
    while i < roots.len()
        invariant
            0 <= i <= roots.len(),
            out@.len() == dir_paths(roots@.take(i as int)).len(),
            forall|k: int| 0 <= k < out@.len() ==> (#[trigger] out@[k])@ == dir_paths(
                roots@.take(i as int),
            )[k],
        decreases roots.len() - i,
    {
        assert(roots@.take(i + 1).drop_last() =~= roots@.take(i as int));
        if roots[i].is_dir {
            out.push(roots[i].path.clone());
        }
        i = i + 1;
    }
    assert(roots@.take(roots@.len() as int) =~= roots@);
    out
}

/// The best project root: the first directory holding a project marker, or
/// else the first directory; `None` when no candidate is a directory.
pub fn best_root_from_uris(roots: &[ResolvedRoot]) -> (r: Option<String>)
    ensures
        dir_paths(roots@).len() == 0 ==> r is None,
        dir_paths(roots@).len() > 0 ==> r is Some,
        r matches Some(p) ==> match first_marked_dir(roots@) {
            Some(i) => p@ == roots@[i].path@,
            None => p@ == dir_paths(roots@)[0],
        },
{
    let mut i: usize = 0;
    while i < roots.len()
        invariant
            0 <= i <= roots.len(),
            forall|j: int| 0 <= j < i ==> !((#[trigger] roots@[j]).is_dir && roots@[j].has_marker),
        decreases roots.len() - i,
    {
        if roots[i].is_dir && roots[i].has_marker {
            proof {
                let w = i as int;
                assert(roots@[w].is_dir && roots@[w].has_marker);
                let c = choose|c: int|
                    0 <= c < roots@.len() && (#[trigger] roots@[c]).is_dir && roots@[c].has_marker
                        && forall|j: int| 0 <= j < c ==> !(roots@[j].is_dir && roots@[j].has_marker);
                assert(c == w) by {
                    if c < w {
                        assert(!(roots@[c].is_dir && roots@[c].has_marker));
                    } else if c > w {
                        assert(!(roots@[w].is_dir && roots@[w].has_marker));
                    }
                }
                lemma_dir_paths_nonempty(roots@, w);
            }
            return Some(roots[i].path.clone());
        }
        i = i + 1;
    }
    let paths = valid_dir_paths_from_uris(roots);
    if paths.len() == 0 {
        return None;
    }
    Some(paths[0].clone())
}

proof fn lemma_dir_paths_nonempty(roots: Seq<ResolvedRoot>, w: int)
    requires
        0 <= w < roots.len(),
        roots[w].is_dir,
    ensures
        dir_paths(roots).len() > 0,
    decreases roots.len(),
{
    if w < roots.len() - 1 {
        lemma_dir_paths_nonempty(roots.drop_last(), w);
    }
}

/// A project-root environment variable that is set, after the filesystem
/// check: its value trimmed, and whether that trimmed path is an existing
/// directory.
pub struct EnvRoot {
    pub trimmed: String,
    pub is_dir: bool,
}

/// The first usable root among the variables, in priority order: a trimmed
/// value that is not empty and names an existing directory.
pub open spec fn first_env_root(c: Seq<EnvRoot>) -> Option<Seq<char>>
    decreases c.len(),
{
    if c.len() == 0 {
        None
    } else if c[0].trimmed@.len() > 0 && c[0].is_dir {
        Some(c[0].trimmed@)
    } else {
        first_env_root(c.drop_first())
    }
}

/// The project root named by the environment: the first set variable, in
/// priority order, whose trimmed value is not empty and is a directory.
pub fn root_from_env(candidates: &[EnvRoot]) -> (r: Option<String>)
    ensures
        r is None <==> first_env_root(candidates@) is None,
        r matches Some(p) ==> first_env_root(candidates@) == Some(p@),
{
    let mut i: usize = 0;
    assert(candidates@.skip(0) =~= candidates@);
    while i < candidates.len()
        invariant
            i <= candidates.len(),
            first_env_root(candidates@) == first_env_root(candidates@.skip(i as int)),
        decreases candidates.len() - i,
    {
        let ghost rest = candidates@.skip(i as int);
        assert(rest[0] == candidates@[i as int]);
        if candidates[i].is_dir && chars_of(candidates[i].trimmed.as_str()).len() > 0 {
            return Some(candidates[i].trimmed.clone());
        }
        assert(rest.drop_first() =~= candidates@.skip(i + 1));
        i = i + 1;
    }
    None
}

/// Percent-decoding keeps every byte outside a `%` escape: bytes without a
/// `%` decode to themselves.
pub proof fn law_plain_bytes_decode_to_themselves(b: Seq<u8>)
    requires
        forall|i: int| 0 <= i < b.len() ==> b[i] != 37,
    ensures
        percent_decoded(b) == b,
    decreases b.len(),
{
    if b.len() > 0 {
        law_plain_bytes_decode_to_themselves(b.drop_first());
        assert(seq![b[0]] + b.drop_first() =~= b);
    }
}

/// Decoding and escapes compose: the decoding of plain bytes followed by more
/// text is those bytes followed by the decoding of the rest.
pub proof fn law_plain_prefix_kept(p: Seq<u8>, rest: Seq<u8>)
    requires
        forall|i: int| 0 <= i < p.len() ==> p[i] != 37,
    ensures
        percent_decoded(p + rest) == p + percent_decoded(rest),
    decreases p.len(),
{
    if p.len() > 0 {
        law_plain_prefix_kept(p.drop_first(), rest);
        assert((p + rest).drop_first() =~= p.drop_first() + rest);
        assert(seq![p[0]] + (p.drop_first() + percent_decoded(rest)) =~= p + percent_decoded(rest));
    } else {
        assert(p + rest =~= rest);
        assert(p + percent_decoded(rest) =~= percent_decoded(rest));
    }
}

/// A `file://` URI without `%` names exactly the text of the bytes after the
/// scheme, when that is an absolute path without NUL.
pub proof fn law_plain_uri_path(uri: Seq<u8>)
    requires
        uri.len() >= 7,
        uri.take(7) == file_scheme(),
        forall|i: int| 7 <= i < uri.len() ==> uri[i] != 37,
        path_text(uri.skip(7)).len() > 0,
        !path_text(uri.skip(7)).contains('\0'),
        path_text(uri.skip(7))[0] == '/',
    ensures
        uri_path(uri) == Some(path_text(uri.skip(7))),
{
    let raw = uri.skip(7);
    assert forall|i: int| 0 <= i < raw.len() implies raw[i] != 37 by {
        assert(raw[i] == uri[i + 7]);
    }
    law_plain_bytes_decode_to_themselves(raw);
    if has_encoded_nul(raw) {
        let k = choose|k: int|
            #![trigger raw[k]]
            0 <= k && k + 3 <= raw.len() && raw[k] == 37 && raw[k + 1] == 48 && raw[k + 2] == 48;
        assert(raw[k] != 37);
    }
}

} // verus!
