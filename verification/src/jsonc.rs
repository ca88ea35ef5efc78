//! JSON with comments: `//` line comments and `/* */` block comments are
//! removed, string literals are kept verbatim, and the rest is parsed by
//! serde_json.

use vstd::prelude::*;
use crate::text::{chars_of, string_from_chars};

verus! {

#[verifier::external_type_specification]
#[verifier::external_body]
pub struct ExJsonValue(serde_json::Value);

#[verifier::external_type_specification]
#[verifier::external_body]
pub struct ExJsonError(serde_json::Error);

/// What `serde_json::from_str::<Value>` makes of a text: the parsed value, or
/// `None` when the text is not one JSON value.
pub uninterp spec fn serde_json_parse(text: Seq<char>) -> Option<serde_json::Value>;

/// Calls `serde_json::from_str` into a `serde_json::Value`. The contract
/// states that the outcome is a function of the text alone, named
/// `serde_json_parse`; which JSON texts are accepted is left to serde_json.
#[verifier::external_body]
pub(crate) fn parse_json_text(text: &str) -> (r: Result<serde_json::Value, serde_json::Error>)
    ensures
        r is Ok <==> serde_json_parse(text@) is Some,
        r matches Ok(v) ==> serde_json_parse(text@) == Some(v),
{
    serde_json::from_str::<serde_json::Value>(text)
}

/// What `Value::get` with a string key gives: the member of that name when
/// the value is an object that has one, else `None`.
pub uninterp spec fn json_member(v: serde_json::Value, key: Seq<char>) -> Option<serde_json::Value>;

/// Calls `serde_json::Value::get` with a string key; the contract names the
/// result, a function of the value and the key.
#[verifier::external_body]
pub(crate) fn member<'a>(v: &'a serde_json::Value, key: &str) -> (r: Option<&'a serde_json::Value>)
    ensures
        r is None <==> json_member(*v, key@) is None,
        r matches Some(m) ==> json_member(*v, key@) == Some(*m),
{
    v.get(key)
}

/// What `Value::as_u64` gives: the number when the value is an integer that
/// fits in a `u64`, else `None`.
pub uninterp spec fn json_as_u64(v: serde_json::Value) -> Option<u64>;

/// Calls `serde_json::Value::as_u64`; the contract names the result, a
/// function of the value.
#[verifier::external_body]
pub(crate) fn as_u64(v: &serde_json::Value) -> (r: Option<u64>)
    ensures
        r == json_as_u64(*v),
{
    v.as_u64()
}

/// Whether a value is the empty JSON object that
/// `Value::Object(Map::new())` builds.
pub uninterp spec fn is_empty_object(v: serde_json::Value) -> bool;

/// Builds an empty JSON object, `Value::Object(Map::new())`.
#[verifier::external_body]
pub(crate) fn empty_object() -> (r: serde_json::Value)
    ensures
        is_empty_object(r),
{
    serde_json::Value::Object(serde_json::Map::new())
}

/// Why a JSONC text was refused.
#[derive(Debug)]
pub enum JsoncError {
    /// After comment removal the text is not valid JSON.
    Syntax(serde_json::Error),
}

// ---------------------------------------------------------------------------
// Specification of comment stripping.
// ---------------------------------------------------------------------------

/// Position just after the string literal whose body starts at `k` (the
/// opening quote is at `k - 1`). A backslash skips the following character;
/// an unterminated literal runs to the end of the text.
pub open spec fn string_end(s: Seq<char>, k: int) -> int
    recommends
        0 <= k,
    decreases s.len() - k,
{
    if k >= s.len() {
        s.len() as int
    } else if s[k] == '\\' && k + 1 < s.len() {
        string_end(s, k + 2)
    } else if s[k] == '"' {
        k + 1
    } else {
        string_end(s, k + 1)
    }
}

/// Position of the first newline at or after `k` (or the end of the text).
pub open spec fn line_end(s: Seq<char>, k: int) -> int
    recommends
        0 <= k,
    decreases s.len() - k,
{
    if k >= s.len() {
        s.len() as int
    } else if s[k] == '\n' {
        k
    } else {
        line_end(s, k + 1)
    }
}

/// Where scanning resumes after a block comment whose body starts at `k`:
/// just after the first `*/`, or at the end of the text when no `*/` follows
/// (an unterminated block comment runs to the end of the input).
pub open spec fn block_end(s: Seq<char>, k: int) -> int
    recommends
        0 <= k,
    decreases s.len() - k,
{
    if k + 1 < s.len() {
        if s[k] == '*' && s[k + 1] == '/' {
            k + 2
        } else {
            block_end(s, k + 1)
        }
    } else {
        s.len() as int
    }
}

/// The text from position `i` on, scanned outside any string or comment,
/// with its comments removed.
pub open spec fn strip_from(s: Seq<char>, i: int) -> Seq<char>
    recommends
        0 <= i,
    decreases s.len() - i,
{
    if i < 0 || i >= s.len() {
        Seq::empty()
    } else if s[i] == '"' {
        let j = string_end(s, i + 1);
        if i < j <= s.len() {
            s.subrange(i, j) + strip_from(s, j)
        } else {
            Seq::empty()
        }
    } else if s[i] == '/' && i + 1 < s.len() && s[i + 1] == '/' {
        let j = line_end(s, i + 2);
        if i < j <= s.len() {
            strip_from(s, j)
        } else {
            Seq::empty()
        }
    } else if s[i] == '/' && i + 1 < s.len() && s[i + 1] == '*' {
        let j = block_end(s, i + 2);
        if i < j <= s.len() {
            strip_from(s, j)
        } else {
            Seq::empty()
        }
    } else {
        seq![s[i]] + strip_from(s, i + 1)
    }
}

/// `s` with its `//` and `/* */` comments removed; string literals, with their
/// escapes, are copied verbatim.
pub open spec fn strip_comments(s: Seq<char>) -> Seq<char> {
    strip_from(s, 0)
}

// ---------------------------------------------------------------------------
// Facts about the scanning positions.
// ---------------------------------------------------------------------------

proof fn lemma_string_end_bounds(s: Seq<char>, k: int)
    requires
        0 <= k,
    ensures
        k <= string_end(s, k) <= s.len() || (k > s.len() && string_end(s, k) == s.len()),
        k <= s.len() ==> k <= string_end(s, k) <= s.len(),
    decreases s.len() - k,
{
    if k < s.len() {
        if s[k] == '\\' && k + 1 < s.len() {
            lemma_string_end_bounds(s, k + 2);
        } else if s[k] != '"' {
            lemma_string_end_bounds(s, k + 1);
        }
    }
}

proof fn lemma_line_end_bounds(s: Seq<char>, k: int)
    requires
        0 <= k <= s.len(),
    ensures
        k <= line_end(s, k) <= s.len(),
    decreases s.len() - k,
{
    if k < s.len() && s[k] != '\n' {
        lemma_line_end_bounds(s, k + 1);
    }
}

proof fn lemma_block_end_bounds(s: Seq<char>, k: int)
    requires
        0 <= k <= s.len(),
    ensures
        k <= block_end(s, k) <= s.len(),
    decreases s.len() - k,
{
    if k + 1 < s.len() && !(s[k] == '*' && s[k + 1] == '/') {
        lemma_block_end_bounds(s, k + 1);
    }
}

/// Unfolds `strip_from` at a position that is not a string or comment start.
proof fn lemma_strip_plain(s: Seq<char>, i: int)
    requires
        0 <= i < s.len(),
        s[i] != '"',
        !(s[i] == '/' && i + 1 < s.len() && (s[i + 1] == '/' || s[i + 1] == '*')),
    ensures
        strip_from(s, i) == seq![s[i]] + strip_from(s, i + 1),
{
}

// ---------------------------------------------------------------------------
// Executable stripping.
// ---------------------------------------------------------------------------

/// Scans a string literal whose body starts at `k`, copying it to `out`;
/// returns the position just after it.
fn copy_string_body(cs: &Vec<char>, k: usize, out: &mut Vec<char>) -> (end: usize)
    requires
        1 <= k <= cs.len(),
    ensures
        end == string_end(cs@, k as int),
        k <= end <= cs.len(),
        final(out)@ == old(out)@ + cs@.subrange(k as int, end as int),
{
    let len = cs.len();
    let mut i = k;
    proof {
        lemma_string_end_bounds(cs@, k as int);
    }
    while i < len
        invariant
            len == cs.len(),
            k <= i <= len,
            string_end(cs@, i as int) == string_end(cs@, k as int),
            out@ == old(out)@ + cs@.subrange(k as int, i as int),
        decreases len - i,
    {
        let c = cs[i];
        out.push(c);
        i = i + 1;
        assert(out@ =~= old(out)@ + cs@.subrange(k as int, i as int));
        if c == '\\' && i < len {
            out.push(cs[i]);
            i = i + 1;
            assert(out@ =~= old(out)@ + cs@.subrange(k as int, i as int));
        } else if c == '"' {
            return i;
        }
    }
    i
}

/// Position of the first newline at or after `k`, or the end.
fn scan_line_end(cs: &Vec<char>, k: usize) -> (j: usize)
    requires
        k <= cs.len(),
    ensures
        j == line_end(cs@, k as int),
{
    let mut j = k;
    while j < cs.len()
        invariant
            k <= j <= cs.len(),
            line_end(cs@, j as int) == line_end(cs@, k as int),
        decreases cs.len() - j,
    {
        if cs[j] == '\n' {
            return j;
        }
        j = j + 1;
    }
    j
}

/// Where scanning resumes after a block comment whose body starts at `k`.
fn scan_block_end(cs: &Vec<char>, k: usize) -> (j: usize)
    requires
        k <= cs.len(),
    ensures
        j == block_end(cs@, k as int),
{
    let mut j = k;
    while j < cs.len() && cs.len() - j > 1
        invariant
            k <= j <= cs.len(),
            block_end(cs@, j as int) == block_end(cs@, k as int),
        decreases cs.len() - j,
    {
        if cs[j] == '*' && cs[j + 1] == '/' {
            return j + 2;
        }
        j = j + 1;
    }
    cs.len()
}

/// Removes `//` line comments and `/* */` block comments from a JSONC text,
/// copying string literals (including escaped quotes and comment-like
/// contents) verbatim.
pub fn strip_json_comments(input: &str) -> (out: String)
    ensures
        out@ == strip_comments(input@),
{
    let cs = chars_of(input);
    let len = cs.len();
    let mut out: Vec<char> = Vec::new();
    let mut i: usize = 0;
    while i < len
        invariant
            len == cs.len(),
            cs@ == input@,
            0 <= i <= len,
            out@ + strip_from(cs@, i as int) == strip_comments(cs@),
        decreases len - i,
    {
        let b = cs[i];
        if b == '"' {
            let ghost before = out@;
            out.push(b);
            let j = copy_string_body(&cs, i + 1, &mut out);
            proof {
                assert(out@ =~= before + cs@.subrange(i as int, j as int));
                assert(before + strip_from(cs@, i as int) == strip_comments(cs@));
                assert(strip_from(cs@, i as int) == cs@.subrange(i as int, j as int)
                    + strip_from(cs@, j as int));
                assert(before + (cs@.subrange(i as int, j as int) + strip_from(cs@, j as int))
                    =~= out@ + strip_from(cs@, j as int));
            }
            i = j;
        } else if b == '/' && i + 1 < len && cs[i + 1] == '/' {
            let j = scan_line_end(&cs, i + 2);
            proof {
                lemma_line_end_bounds(cs@, i + 2);
            }
            i = j;
        } else if b == '/' && i + 1 < len && cs[i + 1] == '*' {
            let k = scan_block_end(&cs, i + 2);
            proof {
                lemma_block_end_bounds(cs@, i + 2);
            }
            i = k;
        } else {
            proof {
                lemma_strip_plain(cs@, i as int);
                assert(out@.push(b) + strip_from(cs@, i + 1) =~= out@ + (seq![b] + strip_from(
                    cs@,
                    i + 1,
                )));
            }
            out.push(b);
            i = i + 1;
        }
    }
    assert(out@ + strip_from(cs@, len as int) =~= out@);
    string_from_chars(&out)
}

/// Parses a JSONC text: comments are removed with [`strip_json_comments`],
/// then the rest is parsed as one JSON value.
pub fn parse_jsonc(input: &str) -> (r: Result<serde_json::Value, JsoncError>)
    ensures
        r is Ok <==> serde_json_parse(strip_comments(input@)) is Some,
        r matches Ok(v) ==> serde_json_parse(strip_comments(input@)) == Some(v),
{
    let stripped = strip_json_comments(input);
    match parse_json_text(stripped.as_str()) {
        Ok(v) => Ok(v),
        Err(e) => Err(JsoncError::Syntax(e)),
    }
}

// ---------------------------------------------------------------------------
// Laws.
// ---------------------------------------------------------------------------

proof fn lemma_no_slash_from(s: Seq<char>, i: int)
    requires
        0 <= i <= s.len(),
        forall|k: int| 0 <= k < s.len() ==> s[k] != '/',
    ensures
        strip_from(s, i) == s.subrange(i, s.len() as int),
    decreases s.len() - i,
{
    if i < s.len() {
        if s[i] == '"' {
            let j = string_end(s, i + 1);
            lemma_string_end_bounds(s, i + 1);
            lemma_no_slash_from(s, j);
            assert(s.subrange(i, j) + s.subrange(j, s.len() as int) =~= s.subrange(
                i,
                s.len() as int,
            ));
        } else {
            lemma_no_slash_from(s, i + 1);
            assert(seq![s[i]] + s.subrange(i + 1, s.len() as int) =~= s.subrange(
                i,
                s.len() as int,
            ));
        }
    } else {
        assert(s.subrange(i, s.len() as int) =~= Seq::<char>::empty());
    }
}

/// Plain JSON passes through: a text with no `/` outside or inside strings
/// comes out of comment stripping unchanged, so
/// [`parse_jsonc`] parses it exactly as serde_json would.
pub proof fn law_comment_free_text_unchanged(s: Seq<char>)
    requires
        forall|k: int| 0 <= k < s.len() ==> s[k] != '/',
    ensures
        strip_comments(s) == s,
{
    lemma_no_slash_from(s, 0);
    assert(s.subrange(0, s.len() as int) =~= s);
}

proof fn lemma_strip_from_shorter(s: Seq<char>, i: int)
    requires
        0 <= i <= s.len(),
    ensures
        strip_from(s, i).len() <= s.len() - i,
    decreases s.len() - i,
{
    if i < s.len() {
        if s[i] == '"' {
            let j = string_end(s, i + 1);
            lemma_string_end_bounds(s, i + 1);
            lemma_strip_from_shorter(s, j);
        } else if s[i] == '/' && i + 1 < s.len() && s[i + 1] == '/' {
            lemma_line_end_bounds(s, i + 2);
            lemma_strip_from_shorter(s, line_end(s, i + 2));
        } else if s[i] == '/' && i + 1 < s.len() && s[i + 1] == '*' {
            lemma_block_end_bounds(s, i + 2);
            lemma_strip_from_shorter(s, block_end(s, i + 2));
        } else {
            lemma_strip_from_shorter(s, i + 1);
        }
    }
}

/// Comment removal only ever deletes: the result is never longer than the
/// input.
pub proof fn law_strip_never_grows(s: Seq<char>)
    ensures
        strip_comments(s).len() <= s.len(),
{
    lemma_strip_from_shorter(s, 0);
}

/// A well-formed string-literal body: it has no unescaped `"`, and every
/// backslash escapes the character that follows it.
pub open spec fn literal_body(b: Seq<char>) -> bool
    decreases b.len(),
{
    if b.len() == 0 {
        true
    } else if b[0] == '\\' {
        b.len() >= 2 && literal_body(b.skip(2))
    } else {
        b[0] != '"' && literal_body(b.drop_first())
    }
}

/// A string literal is copied verbatim, escapes included, even when it holds
/// `//` or `/*`: for a literal `"body"` followed by `rest`, the output starts
/// with the same literal, followed by the stripped `rest`.
pub proof fn law_string_literal_verbatim(body: Seq<char>, rest: Seq<char>)
    requires
        literal_body(body),
    ensures
        strip_comments(seq!['"'] + body + seq!['"'] + rest) == seq!['"'] + body + seq!['"']
            + strip_comments(rest),
{
    let lit = seq!['"'] + body + seq!['"'];
    let s = lit + rest;
    let n = lit.len() as int;
    assert(s.subrange(1, 1 + body.len() as int) =~= body);
    lemma_string_end_body(s, body, 1);
    assert(s.subrange(0, n) =~= lit);
    lemma_strip_from_shift(lit, rest, n);
}

/// Scanning a well-formed literal body `b` that starts at `k` and is closed
/// by a quote ends just after that quote.
proof fn lemma_string_end_body(s: Seq<char>, b: Seq<char>, k: int)
    requires
        1 <= k,
        k + b.len() < s.len(),
        s.subrange(k, k + b.len()) == b,
        s[k + b.len()] == '"',
        literal_body(b),
    ensures
        string_end(s, k) == k + b.len() + 1,
    decreases b.len(),
{
    if b.len() > 0 {
        assert(s[k] == b[0]);
        if b[0] == '\\' {
            let t = b.skip(2);
            assert(s.subrange(k + 2, k + 2 + t.len()) =~= t) by {
                assert forall|m: int| 0 <= m < t.len() implies s.subrange(k + 2, k + 2 + t.len())[m]
                    == t[m] by {
                    assert(s[k + 2 + m] == b[m + 2]);
                }
            }
            lemma_string_end_body(s, t, k + 2);
        } else {
            let t = b.drop_first();
            assert(s.subrange(k + 1, k + 1 + t.len()) =~= t) by {
                assert forall|m: int| 0 <= m < t.len() implies s.subrange(k + 1, k + 1 + t.len())[m]
                    == t[m] by {
                    assert(s[k + 1 + m] == b[m + 1]);
                }
            }
            lemma_string_end_body(s, t, k + 1);
        }
    }
}

/// Scanning the suffix of `pre + rest` that starts at `pre.len()` is
/// scanning `rest`.
proof fn lemma_strip_from_shift(pre: Seq<char>, rest: Seq<char>, n: int)
    requires
        n == pre.len(),
    ensures
        strip_from(pre + rest, n) == strip_from(rest, 0),
{
    lemma_strip_from_shift_at(pre, rest, 0);
}

proof fn lemma_string_end_shift(pre: Seq<char>, rest: Seq<char>, k: int)
    requires
        0 <= k,
    ensures
        string_end(pre + rest, pre.len() + k) == pre.len() + string_end(rest, k),
    decreases rest.len() - k,
{
    let s = pre + rest;
    let n = pre.len() as int;
    if k < rest.len() {
        assert(s[n + k] == rest[k]);
        if rest[k] == '\\' && k + 1 < rest.len() {
            lemma_string_end_shift(pre, rest, k + 2);
        } else if rest[k] != '"' {
            lemma_string_end_shift(pre, rest, k + 1);
        }
    }
}

proof fn lemma_line_end_shift(pre: Seq<char>, rest: Seq<char>, k: int)
    requires
        0 <= k,
    ensures
        line_end(pre + rest, pre.len() + k) == pre.len() + line_end(rest, k),
    decreases rest.len() - k,
{
    let n = pre.len() as int;
    if k < rest.len() {
        assert((pre + rest)[n + k] == rest[k]);
        if rest[k] != '\n' {
            lemma_line_end_shift(pre, rest, k + 1);
        }
    }
}

proof fn lemma_block_end_shift(pre: Seq<char>, rest: Seq<char>, k: int)
    requires
        0 <= k,
    ensures
        block_end(pre + rest, pre.len() + k) == pre.len() + block_end(rest, k),
    decreases rest.len() - k,
{
    let n = pre.len() as int;
    if k + 1 < rest.len() {
        assert((pre + rest)[n + k] == rest[k]);
        assert((pre + rest)[n + k + 1] == rest[k + 1]);
        if !(rest[k] == '*' && rest[k + 1] == '/') {
            lemma_block_end_shift(pre, rest, k + 1);
        }
    }
}

proof fn lemma_strip_from_shift_at(pre: Seq<char>, rest: Seq<char>, i: int)
    requires
        0 <= i,
    ensures
        strip_from(pre + rest, pre.len() + i) == strip_from(rest, i),
    decreases rest.len() - i,
{
    let s = pre + rest;
    let n = pre.len() as int;
    if i < rest.len() {
        assert(s[n + i] == rest[i]);
        if i + 1 < rest.len() {
            assert(s[n + i + 1] == rest[i + 1]);
        }
        if rest[i] == '"' {
            lemma_string_end_shift(pre, rest, i + 1);
            lemma_string_end_bounds(rest, i + 1);
            let j = string_end(rest, i + 1);
            lemma_strip_from_shift_at(pre, rest, j);
            assert(s.subrange(n + i, n + j) =~= rest.subrange(i, j));
        } else if rest[i] == '/' && i + 1 < rest.len() && rest[i + 1] == '/' {
            lemma_line_end_shift(pre, rest, i + 2);
            lemma_line_end_bounds(rest, i + 2);
            lemma_strip_from_shift_at(pre, rest, line_end(rest, i + 2));
        } else if rest[i] == '/' && i + 1 < rest.len() && rest[i + 1] == '*' {
            lemma_block_end_shift(pre, rest, i + 2);
            lemma_block_end_bounds(rest, i + 2);
            lemma_strip_from_shift_at(pre, rest, block_end(rest, i + 2));
        } else {
            lemma_strip_from_shift_at(pre, rest, i + 1);
        }
    }
}

} // verus!
