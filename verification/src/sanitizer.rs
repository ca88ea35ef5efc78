//! Output sanitizer: detects and removes degenerate model artifacts (runs of
//! CJK characters inside otherwise non-CJK lines, floods of a repeated
//! symbol) from tool output, and maps dense Unicode symbols to ASCII.

use vstd::prelude::*;
use crate::text::{chars_of, is_alphanumeric, is_whitespace, push_chars, string_from_chars};
use crate::text::{char_len_utf8, char_utf8_len, unicode_alphanumeric, unicode_whitespace, utf8_len};
use crate::text::{lemma_utf8_len_take, lemma_utf8_len_mono};

verus! {

// ---------------------------------------------------------------------------
// Character classes.
// ---------------------------------------------------------------------------

/// CJK Unified Ideographs (and extension A, compatibility ideographs),
/// radicals, CJK symbols and punctuation, katakana phonetic extensions,
/// enclosed CJK letters, CJK compatibility forms, Hangul syllables and jamo.
pub open spec fn cjk(c: char) -> bool {
    let u = c as u32;
    ||| 0x4E00 <= u <= 0x9FFF
    ||| 0x3400 <= u <= 0x4DBF
    ||| 0xF900 <= u <= 0xFAFF
    ||| 0x2E80 <= u <= 0x2EFF
    ||| 0x3000 <= u <= 0x303F
    ||| 0x31F0 <= u <= 0x31FF
    ||| 0x3200 <= u <= 0x32FF
    ||| 0xFE30 <= u <= 0xFE4F
    ||| 0xAC00 <= u <= 0xD7AF
    ||| 0x1100 <= u <= 0x11FF
}

/// Returns true if the character belongs to CJK Unified Ideographs or common
/// CJK ranges.
pub fn is_cjk(c: char) -> (r: bool)
    ensures
        r == cjk(c),
{
    let u: u32 = c as u32;
    (0x4E00 <= u && u <= 0x9FFF) || (0x3400 <= u && u <= 0x4DBF) || (0xF900 <= u && u <= 0xFAFF)
        || (0x2E80 <= u && u <= 0x2EFF) || (0x3000 <= u && u <= 0x303F) || (0x31F0 <= u && u
        <= 0x31FF) || (0x3200 <= u && u <= 0x32FF) || (0xFE30 <= u && u <= 0xFE4F) || (0xAC00
        <= u && u <= 0xD7AF) || (0x1100 <= u && u <= 0x11FF)
}

/// A character that can make up a symbol run: not alphanumeric and not a space.
pub open spec fn symbol(c: char) -> bool {
    !unicode_alphanumeric(c) && c != ' '
}

/// `cs` holds `t` consecutive copies of one symbol character.
pub open spec fn has_symbol_run(cs: Seq<char>, t: int) -> bool {
    exists|k: int|
        #![trigger cs[k]]
        0 <= k && k + t <= cs.len() && symbol(cs[k]) && forall|j: int|
            k <= j < k + t ==> cs[j] == cs[k]
}

/// `cs` holds three consecutive CJK characters.
pub open spec fn has_cjk_triple(cs: Seq<char>) -> bool {
    exists|k: int|
        #![trigger cs[k]]
        0 <= k && k + 3 <= cs.len() && cjk(cs[k]) && cjk(cs[k + 1]) && cjk(cs[k + 2])
}

/// Number of CJK characters in `cs`.
pub open spec fn cjk_count(cs: Seq<char>) -> nat
    decreases cs.len(),
{
    if cs.len() == 0 {
        0
    } else {
        cjk_count(cs.drop_last()) + if cjk(cs.last()) {
            1nat
        } else {
            0nat
        }
    }
}

/// `cs` without its leading whitespace.
pub open spec fn trim_start(cs: Seq<char>) -> Seq<char>
    decreases cs.len(),
{
    if cs.len() > 0 && unicode_whitespace(cs[0]) {
        trim_start(cs.drop_first())
    } else {
        cs
    }
}

/// `cs` without its trailing whitespace.
pub open spec fn trim_end(cs: Seq<char>) -> Seq<char>
    decreases cs.len(),
{
    if cs.len() > 0 && unicode_whitespace(cs.last()) {
        trim_end(cs.drop_last())
    } else {
        cs
    }
}

/// `cs` without leading and trailing whitespace (what `str::trim` returns).
pub open spec fn trim(cs: Seq<char>) -> Seq<char> {
    trim_end(trim_start(cs))
}

/// A symbol flood: the trimmed line is at least 10 bytes long and holds 10
/// consecutive copies of one symbol.
pub open spec fn symbol_flood(cs: Seq<char>) -> bool {
    utf8_len(trim(cs)) >= 10 && has_symbol_run(trim(cs), 10)
}

/// Degenerate CJK content: a line with CJK characters that also holds a
/// symbol flood, or that is not predominantly CJK (at most 60% of its
/// characters) and holds a run of 5 identical symbols or 3 consecutive CJK
/// characters.
pub open spec fn degenerate_cjk(cs: Seq<char>) -> bool {
    &&& cs.len() > 0
    &&& cjk_count(cs) > 0
    &&& (symbol_flood(cs) || (5 * cjk_count(cs) <= 3 * cs.len() && (has_symbol_run(cs, 5)
        || has_cjk_triple(cs))))
}

/// A line the sanitizer removes.
pub open spec fn line_flagged(cs: Seq<char>) -> bool {
    degenerate_cjk(cs) || symbol_flood(cs)
}

// ---------------------------------------------------------------------------
// Symbol runs.
// ---------------------------------------------------------------------------

/// Position `i` of `cs` is a symbol by the flags `alnum`: not marked
/// alphanumeric and not a space.
pub open spec fn marked_symbol(cs: Seq<char>, alnum: Seq<bool>, i: int) -> bool {
    !alnum[i] && cs[i] != ' '
}

/// From position `k`, `cs` holds `t` copies of one character, each a symbol
/// by the flags `alnum`.
pub open spec fn marked_run_at(cs: Seq<char>, alnum: Seq<bool>, t: int, k: int) -> bool {
    &&& 0 <= k
    &&& k + t <= cs.len()
    &&& forall|j: int|
        #![trigger marked_symbol(cs, alnum, j)]
        k <= j < k + t ==> cs[j] == cs[k] && marked_symbol(cs, alnum, j)
}

/// `cs` holds `t` consecutive copies of one character, each a symbol by the
/// flags `alnum`.
pub open spec fn has_marked_run(cs: Seq<char>, alnum: Seq<bool>, t: int) -> bool {
    exists|k: int| #[trigger] marked_run_at(cs, alnum, t, k)
}

/// With the true alphanumeric flags, a marked run is a symbol run.
proof fn lemma_marked_run_is_symbol_run(cs: Seq<char>, alnum: Seq<bool>, t: int)
    requires
        t >= 1,
        alnum.len() == cs.len(),
        forall|i: int| 0 <= i < cs.len() ==> alnum[i] == unicode_alphanumeric(#[trigger] cs[i]),
    ensures
        has_marked_run(cs, alnum, t) == has_symbol_run(cs, t),
{
    if has_marked_run(cs, alnum, t) {
        let k = choose|k: int| marked_run_at(cs, alnum, t, k);
        assert(marked_run_at(cs, alnum, t, k));
        assert(k <= k < k + t);
        assert(cs[k] == cs[k] && marked_symbol(cs, alnum, k));
        assert(alnum[k] == unicode_alphanumeric(cs[k]));
        assert(symbol(cs[k]));
        assert forall|j: int| k <= j < k + t implies cs[j] == cs[k] by {
            assert(marked_symbol(cs, alnum, j));
        }
    }
    if has_symbol_run(cs, t) {
        let k = choose|k: int|
            #![trigger cs[k]]
            0 <= k && k + t <= cs.len() && symbol(cs[k]) && forall|j: int|
                k <= j < k + t ==> cs[j] == cs[k];
        assert forall|j: int| k <= j < k + t implies cs[j] == cs[k] && marked_symbol(cs, alnum, j) by {
            assert(cs[j] == cs[k]);
            assert(alnum[j] == unicode_alphanumeric(cs[j]));
        }
        assert(marked_run_at(cs, alnum, t, k));
    }
}

/// Length of the run of one repeated marked symbol that ends at `i` (1 when
/// `cs[i]` does not continue such a run).
spec fn run_len(cs: Seq<char>, alnum: Seq<bool>, i: int) -> nat
    decreases i,
{
    if i <= 0 {
        1
    } else if cs[i] == cs[i - 1] && marked_symbol(cs, alnum, i) && marked_symbol(cs, alnum, i - 1) {
        run_len(cs, alnum, i - 1) + 1
    } else {
        1
    }
}

proof fn lemma_run_len_window(cs: Seq<char>, alnum: Seq<bool>, i: int)
    requires
        0 <= i < cs.len(),
    ensures
        run_len(cs, alnum, i) <= i + 1,
        forall|j: int| i - run_len(cs, alnum, i) < j <= i ==> cs[j] == cs[i],
        run_len(cs, alnum, i) >= 2 ==> forall|j: int|
            i - run_len(cs, alnum, i) < j <= i ==> marked_symbol(cs, alnum, j),
    decreases i,
{
    if i > 0 && cs[i] == cs[i - 1] && marked_symbol(cs, alnum, i) && marked_symbol(cs, alnum, i - 1) {
        lemma_run_len_window(cs, alnum, i - 1);
    }
}

proof fn lemma_window_run_len(cs: Seq<char>, alnum: Seq<bool>, k: int, m: int)
    requires
        0 <= k,
        0 <= m,
        k + m < cs.len(),
        forall|j: int| k <= j <= k + m ==> cs[j] == cs[k] && marked_symbol(cs, alnum, j),
    ensures
        run_len(cs, alnum, k + m) >= m + 1,
    decreases m,
{
    if m > 0 {
        lemma_window_run_len(cs, alnum, k, m - 1);
        assert(cs[k + m] == cs[k + m - 1]);
        assert(marked_symbol(cs, alnum, k + m) && marked_symbol(cs, alnum, k + m - 1));
    }
}

/// Whether `chars` holds `max(t, 2)` consecutive copies of one symbol, given
/// for each character whether it is alphanumeric (`alphanumeric[i]` for
/// `chars[i]`).
pub fn symbol_run_with(chars: &[char], alphanumeric: &[bool], t: u32) -> (r: bool)
    requires
        alphanumeric@.len() == chars@.len(),
    ensures
        r == has_marked_run(chars@, alphanumeric@, if t < 2 {
            2
        } else {
            t as int
        }),
{
    let cs = chars;
    let alnum = alphanumeric;
    let ghost tt: int = if t < 2 {
        2
    } else {
        t as int
    };
    let n = cs.len();
    if n == 0 {
        return false;
    }
    let mut run: u32 = 1;
    let mut i: usize = 1;
    while i < n
        invariant
            n == cs.len(),
            cs@ == chars@,
            alnum@ == alphanumeric@,
            alnum@.len() == n,
            1 <= i <= n,
            tt == (if t < 2 {
                2
            } else {
                t as int
            }),
            run == run_len(cs@, alnum@, i - 1),
            run < tt,
            forall|e: int| 0 <= e < i ==> run_len(cs@, alnum@, e) < tt,
        decreases n - i,
    {
        if cs[i] == cs[i - 1] && !alnum[i] && cs[i] != ' ' && !alnum[i - 1] && cs[i - 1] != ' ' {
            run = run + 1;
            if run >= t {
                proof {
                    assert(run_len(cs@, alnum@, i as int) == run as int);
                    lemma_run_len_window(cs@, alnum@, i as int);
                    let k2 = i - tt + 1;
                    assert(cs@[k2] == cs@[i as int]);
                    assert(marked_run_at(cs@, alnum@, tt, k2));
                    assert(has_marked_run(cs@, alnum@, tt));
                }
                return true;
            }
        } else {
            run = 1;
        }
        i = i + 1;
    }
    proof {
        if has_marked_run(cs@, alnum@, tt) {
            let k = choose|k: int| marked_run_at(cs@, alnum@, tt, k);
            assert forall|j: int| k <= j <= k + tt - 1 implies cs@[j] == cs@[k] && marked_symbol(
                cs@,
                alnum@,
                j,
            ) by {
                assert(marked_symbol(cs@, alnum@, j));
            }
            lemma_window_run_len(cs@, alnum@, k, tt - 1);
            assert(run_len(cs@, alnum@, k + tt - 1) < tt);
        }
    }
    false
}

/// The alphanumeric flag of each character of `cs`.
fn alphanumeric_flags(cs: &[char]) -> (r: Vec<bool>)
    ensures
        r@.len() == cs@.len(),
        forall|i: int| 0 <= i < cs@.len() ==> r@[i] == unicode_alphanumeric(#[trigger] cs@[i]),
{
    let mut out: Vec<bool> = Vec::new();
    let mut i: usize = 0;
    while i < cs.len()
        invariant
            i <= cs.len(),
            out@.len() == i,
            forall|k: int| 0 <= k < i ==> out@[k] == unicode_alphanumeric(#[trigger] cs@[k]),
        decreases cs.len() - i,
    {
        out.push(is_alphanumeric(cs[i]));
        i = i + 1;
    }
    out
}

/// Whether `cs` holds `max(t, 2)` consecutive copies of one symbol.
fn symbol_run_at_least(cs: &[char], t: u32) -> (r: bool)
    ensures
        r == has_symbol_run(cs@, if t < 2 {
            2
        } else {
            t as int
        }),
{
    let flags = alphanumeric_flags(cs);
    let r = symbol_run_with(cs, flags.as_slice(), t);
    proof {
        lemma_marked_run_is_symbol_run(cs@, flags@, if t < 2 {
            2
        } else {
            t as int
        });
    }
    r
}

/// Returns true if the line has `threshold` (at least 2) consecutive
/// identical non-alphanumeric, non-space characters.
pub fn has_repeated_symbol(line: &str, threshold: u32) -> (r: bool)
    ensures
        r == has_symbol_run(line@, if threshold < 2 {
            2
        } else {
            threshold as int
        }),
{
    let cs = chars_of(line);
    symbol_run_at_least(cs.as_slice(), threshold)
}

// ---------------------------------------------------------------------------
// Trimming and floods.
// ---------------------------------------------------------------------------

proof fn lemma_trim_start_skip(cs: Seq<char>, a: int)
    requires
        0 <= a <= cs.len(),
        forall|j: int| 0 <= j < a ==> unicode_whitespace(cs[j]),
        a == cs.len() || !unicode_whitespace(cs[a]),
    ensures
        trim_start(cs) == cs.skip(a),
    decreases a,
{
    if a > 0 {
        lemma_trim_start_skip(cs.drop_first(), a - 1);
        assert(cs.drop_first().skip(a - 1) =~= cs.skip(a));
    } else {
        assert(cs.skip(0) =~= cs);
    }
}

proof fn lemma_trim_end_take(cs: Seq<char>, b: int)
    requires
        0 <= b <= cs.len(),
        forall|j: int| b <= j < cs.len() ==> unicode_whitespace(cs[j]),
        b == 0 || !unicode_whitespace(cs[b - 1]),
    ensures
        trim_end(cs) == cs.take(b),
    decreases cs.len() - b,
{
    if b < cs.len() {
        lemma_trim_end_take(cs.drop_last(), b);
        assert(cs.drop_last().take(b) =~= cs.take(b));
    } else {
        assert(cs.take(b) =~= cs);
    }
}

/// The characters of `cs` without leading and trailing whitespace.
pub fn trim_chars(cs: &[char]) -> (t: Vec<char>)
    ensures
        t@ == trim(cs@),
{
    let n = cs.len();
    let mut a: usize = 0;
    while a < n && is_whitespace(cs[a])
        invariant
            a <= n == cs.len(),
            forall|j: int| 0 <= j < a ==> unicode_whitespace(cs@[j]),
        decreases n - a,
    {
        a = a + 1;
    }
    let mut b: usize = n;
    while b > a && is_whitespace(cs[b - 1])
        invariant
            a <= b <= n == cs.len(),
            forall|j: int| b <= j < n ==> unicode_whitespace(cs@[j]),
        decreases b,
    {
        b = b - 1;
    }
    let mut t: Vec<char> = Vec::new();
    let mut i = a;
    while i < b
        invariant
            a <= i <= b <= n == cs.len(),
            t@ == cs@.subrange(a as int, i as int),
        decreases b - i,
    {
        t.push(cs[i]);
        i = i + 1;
        assert(t@ =~= cs@.subrange(a as int, i as int));
    }
    proof {
        lemma_trim_start_skip(cs@, a as int);
        let st = cs@.skip(a as int);
        lemma_trim_end_take(st, b - a);
        assert(st.take(b - a) =~= cs@.subrange(a as int, b as int));
    }
    t
}

/// `s` without leading and trailing whitespace (`str::trim`).
pub fn trimmed(s: &str) -> (r: String)
    ensures
        r@ == trim(s@),
{
    let cs = chars_of(s);
    let t = trim_chars(cs.as_slice());
    string_from_chars(t.as_slice())
}

/// Whether `s` holds nothing but whitespace (`s.trim().is_empty()`).
pub fn is_blank(s: &str) -> (r: bool)
    ensures
        r == (trim(s@).len() == 0),
{
    let cs = chars_of(s);
    let t = trim_chars(cs.as_slice());
    t.len() == 0
}

/// Whether the UTF-8 length of `cs` is at least `m`.
fn utf8_len_at_least(cs: &[char], m: usize) -> (r: bool)
    requires
        m <= 1000,
    ensures
        r == (utf8_len(cs@) >= m),
{
    if m == 0 {
        return true;
    }
    let mut total: usize = 0;
    let mut i: usize = 0;
    while i < cs.len()
        invariant
            0 <= i <= cs.len(),
            total == utf8_len(cs@.take(i as int)),
            total < m,
            m <= 1000,
        decreases cs.len() - i,
    {
        if total >= m {
            return true;
        }
        proof {
            lemma_utf8_len_take(cs@, i as int);
        }
        total = total + char_len_utf8(cs[i]);
        i = i + 1;
        if total >= m {
            proof {
                lemma_utf8_len_mono(cs@, i as int, cs@.len() as int);
                assert(cs@.take(cs@.len() as int) =~= cs@);
            }
            return true;
        }
    }
    assert(cs@.take(cs@.len() as int) =~= cs@);
    false
}

fn symbol_flood_chars(cs: &[char]) -> (r: bool)
    ensures
        r == symbol_flood(cs@),
{
    let t = trim_chars(cs);
    if !utf8_len_at_least(t.as_slice(), 10) {
        return false;
    }
    symbol_run_at_least(t.as_slice(), 10)
}

/// Returns true if a line is a "symbol flood": 10 or more of the same
/// non-alphanumeric, non-space character in a row (leading and trailing
/// whitespace aside).
pub fn is_symbol_flood(line: &str) -> (r: bool)
    ensures
        r == symbol_flood(line@),
{
    let cs = chars_of(line);
    symbol_flood_chars(cs.as_slice())
}

// ---------------------------------------------------------------------------
// Degenerate CJK.
// ---------------------------------------------------------------------------

fn count_cjk(cs: &[char]) -> (c: usize)
    ensures
        c == cjk_count(cs@),
        c <= cs.len(),
{
    let mut c: usize = 0;
    let mut i: usize = 0;
    while i < cs.len()
        invariant
            0 <= i <= cs.len(),
            c == cjk_count(cs@.take(i as int)),
            c <= i,
        decreases cs.len() - i,
    {
        assert(cs@.take(i + 1).drop_last() =~= cs@.take(i as int));
        if is_cjk(cs[i]) {
            c = c + 1;
        }
        i = i + 1;
    }
    assert(cs@.take(cs@.len() as int) =~= cs@);
    c
}

fn cjk_triple(cs: &[char]) -> (r: bool)
    ensures
        r == has_cjk_triple(cs@),
{
    let mut consecutive: usize = 0;
    let mut i: usize = 0;
    while i < cs.len()
        invariant
            0 <= i <= cs.len(),
            consecutive < 3,
            consecutive <= i,
            forall|j: int| i - consecutive <= j < i ==> cjk(cs@[j]),
            consecutive < i ==> !cjk(cs@[i - consecutive - 1]),
            forall|k: int|
                #![trigger cs@[k]]
                0 <= k && k + 3 <= i ==> !(cjk(cs@[k]) && cjk(cs@[k + 1]) && cjk(cs@[k + 2])),
        decreases cs.len() - i,
    {
        if is_cjk(cs[i]) {
            consecutive = consecutive + 1;
            if consecutive >= 3 {
                assert(cjk(cs@[i - 2]) && cjk(cs@[i - 1]) && cjk(cs@[i as int]));
                assert(cs@[i - 2] == cs@[i - 2]);
                return true;
            }
        } else {
            consecutive = 0;
        }
        i = i + 1;
    }
    proof {
        if has_cjk_triple(cs@) {
            let k = choose|k: int|
                #![trigger cs@[k]]
                0 <= k && k + 3 <= cs@.len() && cjk(cs@[k]) && cjk(cs@[k + 1]) && cjk(cs@[k + 2]);
            assert(false);
        }
    }
    false
}

fn degenerate_cjk_chars(cs: &[char]) -> (r: bool)
    ensures
        r == degenerate_cjk(cs@),
{
    let total = cs.len();
    if total == 0 {
        return false;
    }
    let cjk_count = count_cjk(cs);
    if cjk_count == 0 {
        return false;
    }
    // CJK plus a symbol flood, e.g. "肛裂!!!!!!!!!!".
    if symbol_flood_chars(cs) {
        return true;
    }
    // More than 60% CJK: genuine CJK content (e.g. Chinese docs).
    if cjk_count as u128 * 5 > total as u128 * 3 {
        return false;
    }
    // CJK plus five repeated symbols.
    if symbol_run_at_least(cs, 5) {
        return true;
    }
    // Three consecutive CJK characters in a predominantly non-CJK line.
    cjk_triple(cs)
}

/// Returns true if a line holds degenerate CJK content: CJK characters
/// together with a symbol flood, or, in a line that is at most 60% CJK, three
/// or more consecutive CJK characters or a run of 5 repeated symbols.
pub fn has_degenerate_cjk_run(line: &str) -> (r: bool)
    ensures
        r == degenerate_cjk(line@),
{
    let cs = chars_of(line);
    degenerate_cjk_chars(cs.as_slice())
}

// ---------------------------------------------------------------------------
// Lines.
// ---------------------------------------------------------------------------

/// Position of the first `'\n'` at or after `k`, or the length of `s`.
pub open spec fn newline_from(s: Seq<char>, k: int) -> int
    decreases s.len() - k,
{
    if k < 0 || k >= s.len() {
        s.len() as int
    } else if s[k] == '\n' {
        k
    } else {
        newline_from(s, k + 1)
    }
}

/// A line with the `'\r'` of a `"\r\n"` ending removed.
pub open spec fn strip_cr(l: Seq<char>) -> Seq<char> {
    if l.len() > 0 && l.last() == '\r' {
        l.drop_last()
    } else {
        l
    }
}

/// The lines of `s` as `str::lines` yields them: split at `"\n"` or
/// `"\r\n"`; a final line ending adds no empty line; a final line without
/// ending is kept as it is.
pub open spec fn lines_of(s: Seq<char>) -> Seq<Seq<char>>
    decreases s.len(),
{
    if s.len() == 0 {
        Seq::empty()
    } else {
        let k = newline_from(s, 0);
        if 0 <= k < s.len() {
            seq![strip_cr(s.take(k))] + lines_of(s.skip(k + 1))
        } else {
            seq![s]
        }
    }
}

/// Lines joined with `'\n'` between them.
pub open spec fn join_lines(ls: Seq<Seq<char>>) -> Seq<char>
    decreases ls.len(),
{
    if ls.len() == 0 {
        Seq::empty()
    } else if ls.len() == 1 {
        ls[0]
    } else {
        join_lines(ls.drop_last()) + seq!['\n'] + ls.last()
    }
}

/// The lines that the sanitizer keeps, in their order.
pub open spec fn retained(ls: Seq<Seq<char>>) -> Seq<Seq<char>>
    decreases ls.len(),
{
    if ls.len() == 0 {
        Seq::empty()
    } else if line_flagged(ls.last()) {
        retained(ls.drop_last())
    } else {
        retained(ls.drop_last()).push(ls.last())
    }
}

/// What [`sanitize`] returns for a text: the text itself when none of its
/// lines is flagged, otherwise its unflagged lines joined with `'\n'`.
pub open spec fn sanitized(s: Seq<char>) -> Seq<char> {
    let ls = lines_of(s);
    if forall|i: int| 0 <= i < ls.len() ==> !line_flagged(#[trigger] ls[i]) {
        s
    } else {
        join_lines(retained(ls))
    }
}

proof fn lemma_newline_from(s: Seq<char>, k: int, m: int)
    requires
        0 <= k <= m <= s.len(),
        forall|j: int| k <= j < m ==> s[j] != '\n',
        m == s.len() || s[m] == '\n',
    ensures
        newline_from(s, k) == m,
    decreases m - k,
{
    if k < m {
        lemma_newline_from(s, k + 1, m);
    }
}

proof fn lemma_newline_skip(s: Seq<char>, start: int, m: int)
    requires
        0 <= start <= m <= s.len(),
        forall|j: int| start <= j < m ==> s[j] != '\n',
        m == s.len() || s[m] == '\n',
    ensures
        newline_from(s.skip(start), 0) == m - start,
{
    let t = s.skip(start);
    assert forall|j: int| 0 <= j < m - start implies t[j] != '\n' by {
        assert(t[j] == s[start + j]);
    }
    if m < s.len() {
        assert(t[m - start] == s[m]);
    }
    lemma_newline_from(t, 0, m - start);
}

fn strip_cr_chars(l: Vec<char>) -> (r: Vec<char>)
    ensures
        r@ == strip_cr(l@),
{
    let mut l = l;
    if l.len() > 0 && l[l.len() - 1] == '\r' {
        l.pop();
    }
    l
}

/// Splits `cs` into its lines (see [`lines_of`]).
fn split_lines(cs: &[char]) -> (r: (Vec<Vec<char>>, Ghost<Seq<Seq<char>>>))
    ensures
        r.1@ == lines_of(cs@),
        r.0.len() == r.1@.len(),
        forall|j: int| 0 <= j < r.0.len() ==> (#[trigger] r.0@[j])@ == r.1@[j],
{
    let n = cs.len();
    let mut lines: Vec<Vec<char>> = Vec::new();
    let ghost mut done: Seq<Seq<char>> = Seq::empty();
    let mut cur: Vec<char> = Vec::new();
    let mut start: usize = 0;
    let mut i: usize = 0;
    assert(cs@.skip(0) =~= cs@);
    while i < n
        invariant
            n == cs.len(),
            start <= i <= n,
            lines.len() == done.len(),
            forall|j: int| 0 <= j < lines.len() ==> (#[trigger] lines@[j])@ == done[j],
            lines_of(cs@) == done + lines_of(cs@.skip(start as int)),
            cur@ == cs@.subrange(start as int, i as int),
            forall|j: int| start <= j < i ==> cs@[j] != '\n',
        decreases n - i,
    {
        if cs[i] == '\n' {
            proof {
                lemma_newline_skip(cs@, start as int, i as int);
                let t = cs@.skip(start as int);
                assert(t.take(i - start) =~= cs@.subrange(start as int, i as int));
                assert(t.skip(i - start + 1) =~= cs@.skip(i + 1));
            }
            let line = strip_cr_chars(cur);
            lines.push(line);
            proof {
                let ghost old_done = done;
                done = done.push(strip_cr(cs@.subrange(start as int, i as int)));
                assert(lines_of(cs@) =~= done + lines_of(cs@.skip(i + 1)));
            }
            cur = Vec::new();
            start = i + 1;
            i = i + 1;
            assert(cur@ =~= cs@.subrange(start as int, i as int));
        } else {
            cur.push(cs[i]);
            i = i + 1;
            assert(cur@ =~= cs@.subrange(start as int, i as int));
        }
    }
    if cur.len() > 0 {
        proof {
            let t = cs@.skip(start as int);
            assert(t =~= cs@.subrange(start as int, n as int));
            lemma_newline_skip(cs@, start as int, n as int);
            done = done.push(t);
            assert(lines_of(cs@) =~= done);
        }
        lines.push(cur);
    } else {
        proof {
            assert(cs@.skip(start as int).len() == 0);
            assert(lines_of(cs@) =~= done);
        }
    }
    (lines, Ghost(done))
}

// ---------------------------------------------------------------------------
// Public API.
// ---------------------------------------------------------------------------

/// Sanitizes tool output by removing degenerate lines: lines with degenerate
/// CJK artifacts (see [`degenerate_cjk`]) or symbol floods (see
/// [`symbol_flood`]). When no line is removed the output is returned as it
/// is; otherwise the remaining lines are joined with `'\n'`.
pub fn sanitize(output: &str) -> (r: String)
    ensures
        r@ == sanitized(output@),
{
    let cs = chars_of(output);
    let (lines, Ghost(ls)) = split_lines(cs.as_slice());
    let mut out: Vec<char> = Vec::new();
    let mut kept: usize = 0;
    let mut removed: usize = 0;
    let ghost mut kept_lines: Seq<Seq<char>> = Seq::empty();
    let mut j: usize = 0;
    while j < lines.len()
        invariant
            lines.len() == ls.len(),
            forall|k: int| 0 <= k < lines.len() ==> (#[trigger] lines@[k])@ == ls[k],
            0 <= j <= lines.len(),
            kept_lines == retained(ls.take(j as int)),
            kept == kept_lines.len(),
            kept <= j,
            out@ == join_lines(kept_lines),
            (removed == 0) == (forall|k: int| 0 <= k < j ==> !line_flagged(#[trigger] ls[k])),
            removed <= j,
        decreases lines.len() - j,
    {
        let line = &lines[j];
        assert(ls.take(j + 1).drop_last() =~= ls.take(j as int));
        let flagged = degenerate_cjk_chars(line.as_slice()) || symbol_flood_chars(line.as_slice());
        if flagged {
            removed = removed + 1;
        } else {
            let ghost before = kept_lines;
            if kept > 0 {
                out.push('\n');
            }
            push_chars(&mut out, line.as_slice());
            proof {
                kept_lines = kept_lines.push(ls[j as int]);
                assert(kept_lines.drop_last() =~= before);
                if before.len() == 0 {
                    assert(out@ =~= join_lines(kept_lines));
                } else {
                    assert(out@ =~= join_lines(kept_lines));
                }
            }
            kept = kept + 1;
        }
        j = j + 1;
    }
    assert(ls.take(lines.len() as int) =~= ls);
    if removed == 0 {
        return string_from_chars(cs.as_slice());
    }
    string_from_chars(out.as_slice())
}

// ---------------------------------------------------------------------------
// ASCII-safe symbols.
// ---------------------------------------------------------------------------

/// The ASCII replacement of a Unicode symbol, or the character itself.
pub open spec fn ascii_replacement(c: char) -> Seq<char> {
    if c == '\u{2192}' {
        seq!['-', '>']
    } else if c == '\u{2190}' {
        seq!['<', '-']
    } else if c == '\u{2234}' {
        seq![':', '.']
    } else if c == '\u{2248}' {
        seq!['~', '=']
    } else if c == '\u{2260}' {
        seq!['!', '=']
    } else if c == '\u{2208}' {
        seq!['i', 'n']
    } else if c == '\u{2205}' {
        seq!['(', 'n', 'o', 'n', 'e', ')']
    } else if c == '\u{2295}' {
        seq!['+']
    } else if c == '\u{2296}' {
        seq!['-']
    } else if c == '\u{394}' {
        seq!['d', 'e', 'l', 't', 'a']
    } else if c == '\u{2713}' {
        seq!['o', 'k']
    } else if c == '\u{2717}' {
        seq!['F', 'A', 'I', 'L']
    } else if c == '\u{26A0}' {
        seq!['W', 'A', 'R', 'N']
    } else {
        seq![c]
    }
}

/// Whether `c` is one of the symbols that [`ascii_safe_symbols`] replaces.
pub open spec fn replaced_symbol(c: char) -> bool {
    ascii_replacement(c) != seq![c]
}

/// `s` with every replaced symbol swapped for its ASCII replacement.
pub open spec fn ascii_safe(s: Seq<char>) -> Seq<char>
    decreases s.len(),
{
    if s.len() == 0 {
        Seq::empty()
    } else {
        ascii_safe(s.drop_last()) + ascii_replacement(s.last())
    }
}

fn push_replacement(out: &mut Vec<char>, c: char)
    ensures
        final(out)@ == old(out)@ + ascii_replacement(c),
{
    let ghost before = out@;
    if c == '\u{2192}' {
        out.push('-');
        out.push('>');
    } else if c == '\u{2190}' {
        out.push('<');
        out.push('-');
    } else if c == '\u{2234}' {
        out.push(':');
        out.push('.');
    } else if c == '\u{2248}' {
        out.push('~');
        out.push('=');
    } else if c == '\u{2260}' {
        out.push('!');
        out.push('=');
    } else if c == '\u{2208}' {
        out.push('i');
        out.push('n');
    } else if c == '\u{2205}' {
        out.push('(');
        out.push('n');
        out.push('o');
        out.push('n');
        out.push('e');
        out.push(')');
    } else if c == '\u{2295}' {
        out.push('+');
    } else if c == '\u{2296}' {
        out.push('-');
    } else if c == '\u{394}' {
        out.push('d');
        out.push('e');
        out.push('l');
        out.push('t');
        out.push('a');
    } else if c == '\u{2713}' {
        out.push('o');
        out.push('k');
    } else if c == '\u{2717}' {
        out.push('F');
        out.push('A');
        out.push('I');
        out.push('L');
    } else if c == '\u{26A0}' {
        out.push('W');
        out.push('A');
        out.push('R');
        out.push('N');
    } else {
        out.push(c);
    }
    assert(out@ =~= before + ascii_replacement(c));
}

/// Replaces Unicode mathematical and symbolic characters with ASCII
/// equivalents (`→` becomes `->`, `✓` becomes `ok`, `∅` becomes `(none)`,
/// ...), for downstream models that degenerate on dense Unicode.
pub fn ascii_safe_symbols(text: &str) -> (r: String)
    ensures
        r@ == ascii_safe(text@),
{
    let cs = chars_of(text);
    let mut out: Vec<char> = Vec::new();
    let mut i: usize = 0;
    while i < cs.len()
        invariant
            0 <= i <= cs.len(),
            out@ == ascii_safe(cs@.take(i as int)),
        decreases cs.len() - i,
    {
        assert(cs@.take(i + 1).drop_last() =~= cs@.take(i as int));
        push_replacement(&mut out, cs[i]);
        i = i + 1;
    }
    assert(cs@.take(cs@.len() as int) =~= cs@);
    string_from_chars(out.as_slice())
}

/// ASCII text passes through [`ascii_safe_symbols`] unchanged.
pub proof fn law_ascii_text_unchanged(s: Seq<char>)
    requires
        forall|i: int| 0 <= i < s.len() ==> (s[i] as u32) < 0x80,
    ensures
        ascii_safe(s) == s,
    decreases s.len(),
{
    if s.len() > 0 {
        law_ascii_text_unchanged(s.drop_last());
        assert((s.last() as u32) < 0x80);
        assert(ascii_replacement(s.last()) == seq![s.last()]);
        assert(s.drop_last() + seq![s.last()] =~= s);
    }
}

/// After [`ascii_safe_symbols`] no replaced symbol is left, and every
/// character is either ASCII or a character of the input.
pub proof fn law_no_symbol_left(s: Seq<char>)
    ensures
        forall|i: int| 0 <= i < ascii_safe(s).len() ==> !replaced_symbol(#[trigger] ascii_safe(s)[i]),
        forall|i: int|
            0 <= i < ascii_safe(s).len() ==> (#[trigger] ascii_safe(s)[i] as u32) < 0x80
                || s.contains(ascii_safe(s)[i]),
    decreases s.len(),
{
    if s.len() > 0 {
        let p = s.drop_last();
        let c = s.last();
        law_no_symbol_left(p);
        let r = ascii_replacement(c);
        assert forall|i: int| 0 <= i < r.len() implies !replaced_symbol(#[trigger] r[i]) && ((
        r[i] as u32) < 0x80 || r[i] == c) by {
            if r == seq![c] {
                assert(r[i] == c);
            }
        }
        assert forall|i: int| 0 <= i < ascii_safe(s).len() implies !replaced_symbol(
            #[trigger] ascii_safe(s)[i],
        ) && ((ascii_safe(s)[i] as u32) < 0x80 || s.contains(ascii_safe(s)[i])) by {
            if i < ascii_safe(p).len() {
                assert(ascii_safe(s)[i] == ascii_safe(p)[i]);
                if !((ascii_safe(p)[i] as u32) < 0x80) {
                    let k = choose|k: int| 0 <= k < p.len() && p[k] == ascii_safe(p)[i];
                    assert(s[k] == p[k]);
                }
            } else {
                let m = i - ascii_safe(p).len();
                assert(ascii_safe(s)[i] == r[m]);
                if !((r[m] as u32) < 0x80) {
                    assert(s[s.len() - 1] == c);
                }
            }
        }
    }
}

// ---------------------------------------------------------------------------
// What a sanitized text holds.
// ---------------------------------------------------------------------------

/// `p` is a prefix of `q`.
spec fn is_prefix(p: Seq<char>, q: Seq<char>) -> bool {
    p.len() <= q.len() && p == q.take(p.len() as int)
}

proof fn lemma_trim_end_is_prefix(s: Seq<char>)
    ensures
        is_prefix(trim_end(s), s),
    decreases s.len(),
{
    if s.len() > 0 && unicode_whitespace(s.last()) {
        lemma_trim_end_is_prefix(s.drop_last());
        assert(trim_end(s) =~= s.take(trim_end(s).len() as int));
    } else {
        assert(s.take(s.len() as int) =~= s);
    }
}

proof fn lemma_trim_start_drop_last(y: Seq<char>)
    requires
        y.len() > 0,
    ensures
        is_prefix(trim_start(y.drop_last()), trim_start(y)),
    decreases y.len(),
{
    let x = y.drop_last();
    if x.len() > 0 && unicode_whitespace(x[0]) {
        assert(x.drop_first() =~= y.drop_first().drop_last());
        lemma_trim_start_drop_last(y.drop_first());
    } else if x.len() > 0 {
        assert(x =~= y.take(x.len() as int));
    } else {
        assert(trim_start(x) =~= trim_start(y).take(0));
    }
}

proof fn lemma_trim_end_prefix(p: Seq<char>, q: Seq<char>)
    requires
        is_prefix(p, q),
    ensures
        is_prefix(trim_end(p), trim_end(q)),
    decreases q.len(),
{
    if p.len() == q.len() {
        assert(p =~= q);
        assert(trim_end(q).take(trim_end(q).len() as int) =~= trim_end(q));
    } else {
        assert(p =~= q.drop_last().take(p.len() as int));
        if unicode_whitespace(q.last()) {
            lemma_trim_end_prefix(p, q.drop_last());
        } else {
            lemma_trim_end_is_prefix(p);
            let t = trim_end(p);
            assert(t =~= q.take(t.len() as int));
        }
    }
}

proof fn lemma_symbol_run_prefix(p: Seq<char>, q: Seq<char>, t: int)
    requires
        t >= 1,
        is_prefix(p, q),
        has_symbol_run(p, t),
    ensures
        has_symbol_run(q, t),
{
    let k = choose|k: int|
        #![trigger p[k]]
        0 <= k && k + t <= p.len() && symbol(p[k]) && forall|j: int| k <= j < k + t ==> p[j] == p[k];
    assert(q[k] == p[k]);
    assert forall|j: int| k <= j < k + t implies q[j] == q[k] by {
        assert(q[j] == p[j]);
    }
}

proof fn lemma_cjk_triple_prefix(p: Seq<char>, q: Seq<char>)
    requires
        is_prefix(p, q),
        has_cjk_triple(p),
    ensures
        has_cjk_triple(q),
{
    let k = choose|k: int|
        #![trigger p[k]]
        0 <= k && k + 3 <= p.len() && cjk(p[k]) && cjk(p[k + 1]) && cjk(p[k + 2]);
    assert(q[k] == p[k] && q[k + 1] == p[k + 1] && q[k + 2] == p[k + 2]);
}

/// A line without its last character floods only if the line does.
proof fn lemma_flood_drop_last(y: Seq<char>)
    requires
        y.len() > 0,
        symbol_flood(y.drop_last()),
    ensures
        symbol_flood(y),
{
    let x = y.drop_last();
    lemma_trim_start_drop_last(y);
    lemma_trim_end_prefix(trim_start(x), trim_start(y));
    let tx = trim(x);
    let ty = trim(y);
    lemma_utf8_len_mono(ty, tx.len() as int, ty.len() as int);
    assert(ty.take(ty.len() as int) =~= ty);
    lemma_symbol_run_prefix(tx, ty, 10);
}

/// Removing the `'\r'` of a `"\r\n"` ending never makes a line flagged.
proof fn lemma_strip_cr_unflagged(l: Seq<char>)
    requires
        !line_flagged(l),
    ensures
        !line_flagged(strip_cr(l)),
{
    if l.len() > 0 && l.last() == '\r' {
        let x = l.drop_last();
        assert(is_prefix(x, l)) by {
            assert(x =~= l.take(x.len() as int));
        }
        if symbol_flood(x) {
            lemma_flood_drop_last(l);
        }
        if has_symbol_run(x, 5) {
            lemma_symbol_run_prefix(x, l, 5);
        }
        if has_cjk_triple(x) {
            lemma_cjk_triple_prefix(x, l);
        }
        assert(!cjk(l.last()));
        assert(cjk_count(x) == cjk_count(l));
    }
}

proof fn lemma_newline_from_bounds(s: Seq<char>, k: int)
    requires
        0 <= k <= s.len(),
    ensures
        k <= newline_from(s, k) <= s.len(),
        forall|j: int| k <= j < newline_from(s, k) ==> s[j] != '\n',
        newline_from(s, k) < s.len() ==> s[newline_from(s, k)] == '\n',
    decreases s.len() - k,
{
    if k < s.len() && s[k] != '\n' {
        lemma_newline_from_bounds(s, k + 1);
    }
}

/// No line of a text holds a `'\n'`.
proof fn lemma_lines_without_newline(s: Seq<char>)
    ensures
        forall|i: int, j: int|
            0 <= i < lines_of(s).len() && 0 <= j < lines_of(s)[i].len() ==> #[trigger] lines_of(
                s,
            )[i][j] != '\n',
    decreases s.len(),
{
    if s.len() > 0 {
        let k = newline_from(s, 0);
        lemma_newline_from_bounds(s, 0);
        if 0 <= k < s.len() {
            let rest = s.skip(k + 1);
            lemma_lines_without_newline(rest);
            let first = strip_cr(s.take(k));
            assert forall|i: int, j: int|
                0 <= i < lines_of(s).len() && 0 <= j < lines_of(s)[i].len() implies #[trigger] lines_of(
                s,
            )[i][j] != '\n' by {
                if i == 0 {
                    assert(lines_of(s)[0] == first);
                    assert(first[j] == s[j]);
                } else {
                    assert(lines_of(s)[i] == lines_of(rest)[i - 1]);
                }
            }
        }
    }
}

/// The kept lines are lines of the input that the sanitizer does not flag.
proof fn lemma_retained(ls: Seq<Seq<char>>)
    ensures
        forall|i: int| 0 <= i < retained(ls).len() ==> !line_flagged(#[trigger] retained(ls)[i]),
        forall|i: int| 0 <= i < retained(ls).len() ==> ls.contains(#[trigger] retained(ls)[i]),
    decreases ls.len(),
{
    if ls.len() > 0 {
        let p = ls.drop_last();
        lemma_retained(p);
        assert forall|i: int| 0 <= i < retained(ls).len() implies ls.contains(
            #[trigger] retained(ls)[i],
        ) by {
            if i < retained(p).len() {
                let w = retained(p)[i];
                assert(p.contains(w));
                let k = choose|k: int| 0 <= k < p.len() && p[k] == w;
                assert(ls[k] == w);
            } else {
                assert(ls[ls.len() - 1] == retained(ls)[i]);
            }
        }
    }
}

proof fn lemma_join_front(ls: Seq<Seq<char>>)
    requires
        ls.len() >= 2,
    ensures
        join_lines(ls) == ls[0] + seq!['\n'] + join_lines(ls.drop_first()),
    decreases ls.len(),
{
    if ls.len() == 2 {
        assert(ls.drop_last() =~= seq![ls[0]]);
        assert(ls.drop_first() =~= seq![ls[1]]);
        assert(join_lines(ls.drop_last()) == ls[0]);
        assert(join_lines(ls.drop_first()) == ls[1]);
    } else {
        lemma_join_front(ls.drop_last());
        assert(ls.drop_last().drop_first() =~= ls.drop_first().drop_last());
        assert(ls.drop_last()[0] == ls[0]);
        assert(ls.drop_first().last() == ls.last());
        assert(join_lines(ls) =~= ls[0] + seq!['\n'] + join_lines(ls.drop_first()));
    }
}

/// Lines without `'\n'` that are not flagged, joined with `'\n'`, read back
/// as lines that are not flagged.
proof fn lemma_join_unflagged(ls: Seq<Seq<char>>)
    requires
        forall|i: int| 0 <= i < ls.len() ==> !line_flagged(#[trigger] ls[i]),
        forall|i: int, j: int| 0 <= i < ls.len() && 0 <= j < ls[i].len() ==> #[trigger] ls[i][j] != '\n',
    ensures
        forall|k: int|
            0 <= k < lines_of(join_lines(ls)).len() ==> !line_flagged(
                #[trigger] lines_of(join_lines(ls))[k],
            ),
    decreases ls.len(),
{
    if ls.len() == 1 {
        let l = ls[0];
        assert(join_lines(ls) == l);
        if l.len() > 0 {
            lemma_newline_from(l, 0, l.len() as int);
            assert(lines_of(l) =~= seq![l]);
        }
    } else if ls.len() >= 2 {
        let l = ls[0];
        let tail = ls.drop_first();
        lemma_join_front(ls);
        lemma_join_unflagged(tail);
        let j = join_lines(tail);
        let s = l + seq!['\n'] + j;
        assert(s[l.len() as int] == '\n');
        lemma_newline_from(s, 0, l.len() as int);
        assert(s.take(l.len() as int) =~= l);
        assert(s.skip(l.len() as int + 1) =~= j);
        lemma_strip_cr_unflagged(l);
        assert(lines_of(s) =~= seq![strip_cr(l)] + lines_of(j));
        assert forall|k: int| 0 <= k < lines_of(s).len() implies !line_flagged(
            #[trigger] lines_of(s)[k],
        ) by {
            if k > 0 {
                assert(lines_of(s)[k] == lines_of(j)[k - 1]);
            }
        }
    }
}

/// No line of a sanitized text is one that the sanitizer removes.
pub proof fn law_sanitized_lines_clean(s: Seq<char>)
    ensures
        forall|i: int|
            0 <= i < lines_of(sanitized(s)).len() ==> !line_flagged(
                #[trigger] lines_of(sanitized(s))[i],
            ),
{
    let ls = lines_of(s);
    if !(forall|i: int| 0 <= i < ls.len() ==> !line_flagged(#[trigger] ls[i])) {
        lemma_retained(ls);
        lemma_lines_without_newline(s);
        let r = retained(ls);
        assert forall|i: int, j: int| 0 <= i < r.len() && 0 <= j < r[i].len() implies #[trigger] r[i][j]
            != '\n' by {
            assert(ls.contains(r[i]));
            let k = choose|k: int| 0 <= k < ls.len() && ls[k] == r[i];
            assert(ls[k][j] != '\n');
        }
        lemma_join_unflagged(r);
    }
}

/// Sanitizing twice gives what sanitizing once gives.
pub proof fn law_sanitize_idempotent(s: Seq<char>)
    ensures
        sanitized(sanitized(s)) == sanitized(s),
{
    law_sanitized_lines_clean(s);
}

proof fn lemma_no_cjk_count(cs: Seq<char>)
    requires
        forall|i: int| 0 <= i < cs.len() ==> !cjk(#[trigger] cs[i]),
    ensures
        cjk_count(cs) == 0,
    decreases cs.len(),
{
    if cs.len() > 0 {
        let p = cs.drop_last();
        assert forall|i: int| 0 <= i < p.len() implies !cjk(#[trigger] p[i]) by {
            assert(p[i] == cs[i]);
        }
        lemma_no_cjk_count(p);
        assert(!cjk(cs[cs.len() - 1]));
    }
}

/// A line without CJK characters is never degenerate CJK content: the
/// sanitizer flags it exactly when it is a symbol flood.
pub proof fn law_non_cjk_line_flagged_only_by_flood(cs: Seq<char>)
    requires
        forall|i: int| 0 <= i < cs.len() ==> !cjk(#[trigger] cs[i]),
    ensures
        !degenerate_cjk(cs),
        line_flagged(cs) == symbol_flood(cs),
{
    lemma_no_cjk_count(cs);
}

/// A text none of whose lines holds a CJK character or is a symbol flood
/// comes out of the sanitizer unchanged.
pub proof fn law_text_without_cjk_or_flood_unchanged(s: Seq<char>)
    requires
        forall|i: int, j: int|
            0 <= i < lines_of(s).len() && 0 <= j < lines_of(s)[i].len() ==> !cjk(
                #[trigger] lines_of(s)[i][j],
            ),
        forall|i: int| 0 <= i < lines_of(s).len() ==> !symbol_flood(#[trigger] lines_of(s)[i]),
    ensures
        sanitized(s) == s,
{
    let ls = lines_of(s);
    assert forall|i: int| 0 <= i < ls.len() implies !line_flagged(#[trigger] ls[i]) by {
        let l = ls[i];
        assert forall|j: int| 0 <= j < l.len() implies !cjk(#[trigger] l[j]) by {
            assert(!cjk(lines_of(s)[i][j]));
        }
        law_non_cjk_line_flagged_only_by_flood(l);
    }
}

} // verus!
