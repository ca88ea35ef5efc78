//! Keyword index for proactive context expansion: keywords are extracted
//! from compressed content and matched against later requests.
//!
//! Keyword extraction, query-term extraction, the bounded entry store and the
//! token-budget selection are here; relevance scoring (BM25, floating point)
//! is done by the caller, which hands back the entries in score order.

use vstd::prelude::*;
use crate::text::{byte_len, chars_eq, chars_lt, chars_of, is_alphanumeric, lex_lt, str_len};
use crate::text::{string_from_chars, to_lowercase, unicode_alphanumeric, unicode_lowercase};
use crate::text::{lemma_lex_irreflexive, lemma_lex_asymmetric, lemma_lex_transitive, lemma_lex_total};
use crate::text::{utf8_len, char_utf8_len, char_len_utf8};

verus! {

/// Most entries kept in the index.
pub const MAX_ENTRIES: usize = 100;

/// Most keywords kept per entry.
pub const MAX_KEYWORDS_PER_ENTRY: usize = 20;

/// Estimated bytes per token.
pub const CHARS_PER_TOKEN: usize = 4;

// ---------------------------------------------------------------------------
// Words.
// ---------------------------------------------------------------------------

/// Characters that separate words: anything but alphanumerics, `_` and `-`.
pub open spec fn word_separator(c: char) -> bool {
    !(unicode_alphanumeric(c) || c == '_' || c == '-')
}

/// The pieces of `cs` between separators, as `str::split` yields them (empty
/// pieces included, and one empty piece for an empty text).
pub open spec fn pieces(cs: Seq<char>) -> Seq<Seq<char>>
    decreases cs.len(),
{
    if cs.len() == 0 {
        seq![Seq::empty()]
    } else {
        let p = pieces(cs.drop_last());
        if word_separator(cs.last()) {
            p.push(Seq::empty())
        } else {
            p.update(p.len() - 1, p.last().push(cs.last()))
        }
    }
}

proof fn lemma_pieces_nonempty(cs: Seq<char>)
    ensures
        pieces(cs).len() >= 1,
    decreases cs.len(),
{
    if cs.len() > 0 {
        lemma_pieces_nonempty(cs.drop_last());
    }
}

/// The stop words that are never keywords.
pub open spec fn stopword(w: Seq<char>) -> bool {
    ||| w == "the"@
    ||| w == "and"@
    ||| w == "for"@
    ||| w == "are"@
    ||| w == "but"@
    ||| w == "not"@
    ||| w == "you"@
    ||| w == "all"@
    ||| w == "can"@
    ||| w == "had"@
    ||| w == "her"@
    ||| w == "was"@
    ||| w == "one"@
    ||| w == "our"@
    ||| w == "out"@
    ||| w == "has"@
    ||| w == "his"@
    ||| w == "how"@
    ||| w == "its"@
    ||| w == "let"@
    ||| w == "may"@
    ||| w == "new"@
    ||| w == "now"@
    ||| w == "old"@
    ||| w == "see"@
    ||| w == "way"@
    ||| w == "who"@
    ||| w == "did"@
    ||| w == "get"@
    ||| w == "got"@
    ||| w == "him"@
    ||| w == "hit"@
    ||| w == "lot"@
    ||| w == "set"@
    ||| w == "try"@
    ||| w == "use"@
    ||| w == "from"@
    ||| w == "have"@
    ||| w == "that"@
    ||| w == "this"@
    ||| w == "with"@
    ||| w == "will"@
    ||| w == "been"@
    ||| w == "each"@
    ||| w == "make"@
    ||| w == "like"@
    ||| w == "long"@
    ||| w == "look"@
    ||| w == "many"@
    ||| w == "most"@
    ||| w == "over"@
    ||| w == "such"@
    ||| w == "take"@
    ||| w == "than"@
    ||| w == "them"@
    ||| w == "then"@
    ||| w == "very"@
    ||| w == "when"@
    ||| w == "come"@
    ||| w == "here"@
    ||| w == "just"@
    ||| w == "made"@
    ||| w == "more"@
    ||| w == "also"@
    ||| w == "what"@
    ||| w == "into"@
    ||| w == "only"@
    ||| w == "some"@
    ||| w == "could"@
    ||| w == "would"@
    ||| w == "should"@
    ||| w == "there"@
    ||| w == "their"@
    ||| w == "which"@
    ||| w == "about"@
    ||| w == "these"@
    ||| w == "other"@
    ||| w == "where"@
    ||| w == "after"@
    ||| w == "being"@
    ||| w == "those"@
    ||| w == "still"@
}

fn eq_lit(w: &[char], lit: &str) -> (r: bool)
    ensures
        r == (w@ == lit@),
{
    let l = chars_of(lit);
    chars_eq(w, l.as_slice())
}

/// Whether `w` is a stop word.
fn is_stopword(w: &[char]) -> (r: bool)
    ensures
        r == stopword(w@),
{
    eq_lit(w, "the") || eq_lit(w, "and") || eq_lit(w, "for") || eq_lit(w, "are") ||
        eq_lit(w, "but") || eq_lit(w, "not") || eq_lit(w, "you") || eq_lit(w, "all") ||
        eq_lit(w, "can") || eq_lit(w, "had") || eq_lit(w, "her") || eq_lit(w, "was") ||
        eq_lit(w, "one") || eq_lit(w, "our") || eq_lit(w, "out") || eq_lit(w, "has") ||
        eq_lit(w, "his") || eq_lit(w, "how") || eq_lit(w, "its") || eq_lit(w, "let") ||
        eq_lit(w, "may") || eq_lit(w, "new") || eq_lit(w, "now") || eq_lit(w, "old") ||
        eq_lit(w, "see") || eq_lit(w, "way") || eq_lit(w, "who") || eq_lit(w, "did") ||
        eq_lit(w, "get") || eq_lit(w, "got") || eq_lit(w, "him") || eq_lit(w, "hit") ||
        eq_lit(w, "lot") || eq_lit(w, "set") || eq_lit(w, "try") || eq_lit(w, "use") ||
        eq_lit(w, "from") || eq_lit(w, "have") || eq_lit(w, "that") || eq_lit(w, "this") ||
        eq_lit(w, "with") || eq_lit(w, "will") || eq_lit(w, "been") || eq_lit(w, "each") ||
        eq_lit(w, "make") || eq_lit(w, "like") || eq_lit(w, "long") || eq_lit(w, "look") ||
        eq_lit(w, "many") || eq_lit(w, "most") || eq_lit(w, "over") || eq_lit(w, "such") ||
        eq_lit(w, "take") || eq_lit(w, "than") || eq_lit(w, "them") || eq_lit(w, "then") ||
        eq_lit(w, "very") || eq_lit(w, "when") || eq_lit(w, "come") || eq_lit(w, "here") ||
        eq_lit(w, "just") || eq_lit(w, "made") || eq_lit(w, "more") || eq_lit(w, "also") ||
        eq_lit(w, "what") || eq_lit(w, "into") || eq_lit(w, "only") || eq_lit(w, "some") ||
        eq_lit(w, "could") || eq_lit(w, "would") || eq_lit(w, "should") ||
        eq_lit(w, "there") || eq_lit(w, "their") || eq_lit(w, "which") ||
        eq_lit(w, "about") || eq_lit(w, "these") || eq_lit(w, "other") ||
        eq_lit(w, "where") || eq_lit(w, "after") || eq_lit(w, "being") ||
        eq_lit(w, "those") || eq_lit(w, "still")
}

/// Splits `cs` into its pieces (see [`pieces`]).
fn split_words(cs: &[char]) -> (r: Vec<Vec<char>>)
    ensures
        r@.len() == pieces(cs@).len(),
        forall|k: int| 0 <= k < r@.len() ==> (#[trigger] r@[k])@ == pieces(cs@)[k],
{
    let mut words: Vec<Vec<char>> = Vec::new();
    let mut cur: Vec<char> = Vec::new();
    let mut i: usize = 0;
    while i < cs.len()
        invariant
            0 <= i <= cs.len(),
            pieces(cs@.take(i as int)).len() == words@.len() + 1,
            forall|k: int| 0 <= k < words@.len() ==> (#[trigger] words@[k])@ == pieces(cs@.take(i as int))[k],
            cur@ == pieces(cs@.take(i as int)).last(),
        decreases cs.len() - i,
    {
        proof {
            assert(cs@.take(i + 1).drop_last() =~= cs@.take(i as int));
            lemma_pieces_nonempty(cs@.take(i as int));
        }
        let c = cs[i];
        if !(is_alphanumeric(c) || c == '_' || c == '-') {
            let done = cur;
            words.push(done);
            cur = Vec::new();
        } else {
            cur.push(c);
        }
        i = i + 1;
    }
    words.push(cur);
    assert(cs@.take(cs@.len() as int) =~= cs@);
    words
}

/// The lowercase form of a word, with its byte length.
fn lowercase_word(w: &[char]) -> (r: (Vec<char>, usize))
    ensures
        r.0@ == unicode_lowercase(w@),
        r.1 == str_len(unicode_lowercase(w@)),
{
    let s = string_from_chars(w);
    let lower = to_lowercase(s.as_str());
    let n = byte_len(lower.as_str());
    (chars_of(lower.as_str()), n)
}

// ---------------------------------------------------------------------------
// Candidate terms.
// ---------------------------------------------------------------------------

/// The words of `content`, lowercased (each piece separately).
pub open spec fn lowered_words(content: Seq<char>) -> Seq<Seq<char>> {
    pieces(content).map_values(|w: Seq<char>| unicode_lowercase(w))
}

/// The elements of `ws` that satisfy `keep`, in order.
pub open spec fn select(ws: Seq<Seq<char>>, keep: spec_fn(Seq<char>) -> bool) -> Seq<Seq<char>>
    decreases ws.len(),
{
    if ws.len() == 0 {
        Seq::empty()
    } else if keep(ws.last()) {
        select(ws.drop_last(), keep).push(ws.last())
    } else {
        select(ws.drop_last(), keep)
    }
}

/// A lowercased word that can be a keyword: 3 to 50 bytes, not a stop word.
pub open spec fn keyword_term(l: Seq<char>) -> bool {
    3 <= str_len(l) <= 50 && !stopword(l)
}

/// A lowercased word that can be a query term: at least 3 bytes, not a stop
/// word.
pub open spec fn query_term(l: Seq<char>) -> bool {
    str_len(l) >= 3 && !stopword(l)
}

pub open spec fn keyword_term_f() -> spec_fn(Seq<char>) -> bool {
    |l: Seq<char>| keyword_term(l)
}

pub open spec fn query_term_f() -> spec_fn(Seq<char>) -> bool {
    |l: Seq<char>| query_term(l)
}

/// Keyword candidates of a text, with repetitions, in text order.
pub open spec fn keyword_candidates(content: Seq<char>) -> Seq<Seq<char>> {
    select(lowered_words(content), keyword_term_f())
}

/// Query-term candidates of a text, with repetitions, in text order.
pub open spec fn query_candidates(content: Seq<char>) -> Seq<Seq<char>> {
    select(lowered_words(content), query_term_f())
}

proof fn lemma_select_step(ws: Seq<Seq<char>>, keep: spec_fn(Seq<char>) -> bool, i: int)
    requires
        0 <= i < ws.len(),
    ensures
        select(ws.take(i + 1), keep) == if keep(ws[i]) {
            select(ws.take(i), keep).push(ws[i])
        } else {
            select(ws.take(i), keep)
        },
{
    assert(ws.take(i + 1).drop_last() =~= ws.take(i));
}

/// The candidates of `content` under `keep`, as a vector of words.
fn candidates(content: &str, keyword: bool) -> (r: (Vec<Vec<char>>, Ghost<Seq<Seq<char>>>))
    ensures
        r.1@ == (if keyword {
            keyword_candidates(content@)
        } else {
            query_candidates(content@)
        }),
        r.0@.len() == r.1@.len(),
        forall|k: int| 0 <= k < r.0@.len() ==> (#[trigger] r.0@[k])@ == r.1@[k],
{
    let ghost keep = if keyword {
        keyword_term_f()
    } else {
        query_term_f()
    };
    let cs = chars_of(content);
    let words = split_words(cs.as_slice());
    let ghost lw = lowered_words(content@);
    let mut out: Vec<Vec<char>> = Vec::new();
    let ghost mut g: Seq<Seq<char>> = Seq::empty();
    let mut i: usize = 0;
    while i < words.len()
        invariant
            0 <= i <= words.len(),
            cs@ == content@,
            words@.len() == pieces(cs@).len(),
            forall|k: int| 0 <= k < words@.len() ==> (#[trigger] words@[k])@ == pieces(cs@)[k],
            lw == lowered_words(content@),
            lw.len() == words@.len(),
            keep == (if keyword {
                keyword_term_f()
            } else {
                query_term_f()
            }),
            g == select(lw.take(i as int), keep),
            out@.len() == g.len(),
            forall|k: int| 0 <= k < out@.len() ==> (#[trigger] out@[k])@ == g[k],
        decreases words.len() - i,
    {
        proof {
            lemma_select_step(lw, keep, i as int);
        }
        let (lower, n) = lowercase_word(words[i].as_slice());
        assert(lower@ == lw[i as int]);
        let stop = is_stopword(lower.as_slice());
        let ok = if keyword {
            3 <= n && n <= 50 && !stop
        } else {
            3 <= n && !stop
        };
        if ok {
            proof {
                g = g.push(lower@);
            }
            out.push(lower);
        }
        i = i + 1;
    }
    assert(lw.take(words.len() as int) =~= lw);
    (out, Ghost(g))
}

// ---------------------------------------------------------------------------
// Query terms.
// ---------------------------------------------------------------------------

/// `r` is strictly increasing in `lex_lt` order.
pub open spec fn strictly_sorted(r: Seq<Seq<char>>) -> bool {
    forall|i: int, j: int| 0 <= i < j < r.len() ==> lex_lt(#[trigger] r[i], #[trigger] r[j])
}

/// Inserts `t` into a strictly sorted vector unless it is already there.
fn insert_sorted(v: &mut Vec<Vec<char>>, g: Ghost<Seq<Seq<char>>>, t: Vec<char>) -> (r: Ghost<
    Seq<Seq<char>>,
>)
    requires
        old(v)@.len() == g@.len(),
        forall|k: int| 0 <= k < old(v)@.len() ==> (#[trigger] old(v)@[k])@ == g@[k],
        strictly_sorted(g@),
    ensures
        final(v)@.len() == r@.len(),
        forall|k: int| 0 <= k < final(v)@.len() ==> (#[trigger] final(v)@[k])@ == r@[k],
        strictly_sorted(r@),
        forall|w: Seq<char>| r@.contains(w) <==> (g@.contains(w) || w == t@),
{
    let ghost gs = g@;
    let mut k: usize = 0;
    while k < v.len() && chars_lt(v[k].as_slice(), t.as_slice())
        invariant
            0 <= k <= v.len(),
            v@.len() == gs.len(),
            forall|m: int| 0 <= m < v@.len() ==> (#[trigger] v@[m])@ == gs[m],
            forall|m: int| 0 <= m < k ==> lex_lt(#[trigger] gs[m], t@),
        decreases v.len() - k,
    {
        k = k + 1;
    }
    if k < v.len() && chars_eq(v[k].as_slice(), t.as_slice()) {
        proof {
            assert(gs.contains(t@)) by {
                assert(gs[k as int] == t@);
            }
        }
        return Ghost(gs);
    }
    let ghost tv = t@;
    proof {
        if k < gs.len() {
            lemma_lex_total(gs[k as int], tv);
        }
        assert forall|m: int| k <= m < gs.len() implies lex_lt(tv, #[trigger] gs[m]) by {
            if m > k {
                lemma_lex_transitive(tv, gs[k as int], gs[m]);
            }
        }
    }
    v.insert(k, t);
    let ghost ng = gs.insert(k as int, tv);
    proof {
        assert forall|m: int| 0 <= m < v@.len() implies (#[trigger] v@[m])@ == ng[m] by {
            if m < k {
                assert(v@[m] == old(v)@[m]);
            } else if m > k {
                assert(v@[m] == old(v)@[m - 1]);
            }
        }
        assert forall|a: int, b: int| 0 <= a < b < ng.len() implies lex_lt(
            #[trigger] ng[a],
            #[trigger] ng[b],
        ) by {
            if a < k && b == k {
            } else if a < k && b > k {
                assert(ng[b] == gs[b - 1]);
                lemma_lex_transitive(gs[a], tv, gs[b - 1]);
            } else if a == k {
                assert(ng[b] == gs[b - 1]);
            } else if a < k {
            } else {
                assert(ng[a] == gs[a - 1]);
                assert(ng[b] == gs[b - 1]);
            }
        }
        assert forall|w: Seq<char>| ng.contains(w) <==> (gs.contains(w) || w == tv) by {
            if ng.contains(w) {
                let m = choose|m: int| 0 <= m < ng.len() && ng[m] == w;
                if m < k {
                    assert(gs[m] == w);
                } else if m > k {
                    assert(gs[m - 1] == w);
                }
            }
            if gs.contains(w) {
                let m = choose|m: int| 0 <= m < gs.len() && gs[m] == w;
                if m < k {
                    assert(ng[m] == w);
                } else {
                    assert(ng[m + 1] == w);
                }
            }
            if w == tv {
                assert(ng[k as int] == w);
            }
        }
    }
    Ghost(ng)
}

/// The query terms of a text: its lowercased words of at least 3 bytes that
/// are not stop words, sorted, without duplicates.
pub fn extract_query_terms(context: &str) -> (r: Vec<String>)
    ensures
        strictly_sorted(r@.map_values(|s: String| s@)),
        forall|w: Seq<char>|
            r@.map_values(|s: String| s@).contains(w) <==> query_candidates(context@).contains(w),
{
    let (cands, Ghost(cg)) = candidates(context, false);
    sort_candidates(&cands, Ghost(cg))
}

/// The views of a list of strings.
pub open spec fn word_views(words: Seq<String>) -> Seq<Seq<char>> {
    words.map_values(|s: String| s@)
}

/// Candidate words, given already lowercased and filtered, sorted and
/// without duplicates.
pub fn sort_terms(words: &[String]) -> (r: Vec<String>)
    ensures
        strictly_sorted(word_views(r@)),
        forall|w: Seq<char>| #[trigger] word_views(r@).contains(w) <==> word_views(words@).contains(w),
{
    let (cands, Ghost(cg)) = word_chars(words);
    sort_candidates(&cands, Ghost(cg))
}

/// The candidates `cands`, whose views are `cg`, sorted without duplicates.
fn sort_candidates(cands: &Vec<Vec<char>>, cg: Ghost<Seq<Seq<char>>>) -> (r: Vec<String>)
    requires
        cands@.len() == cg@.len(),
        forall|k: int| 0 <= k < cands@.len() ==> (#[trigger] cands@[k])@ == cg@[k],
    ensures
        strictly_sorted(r@.map_values(|s: String| s@)),
        forall|w: Seq<char>| r@.map_values(|s: String| s@).contains(w) <==> cg@.contains(w),
{
    let Ghost(cg) = cg;
    let mut sorted: Vec<Vec<char>> = Vec::new();
    let ghost mut g: Seq<Seq<char>> = Seq::empty();
    let mut i: usize = 0;
    while i < cands.len()
        invariant
            0 <= i <= cands.len(),
            cands@.len() == cg.len(),
            forall|k: int| 0 <= k < cands@.len() ==> (#[trigger] cands@[k])@ == cg[k],
            sorted@.len() == g.len(),
            forall|k: int| 0 <= k < sorted@.len() ==> (#[trigger] sorted@[k])@ == g[k],
            strictly_sorted(g),
            forall|w: Seq<char>| g.contains(w) <==> cg.take(i as int).contains(w),
        decreases cands.len() - i,
    {
        let t = cands[i].clone();
        let ghost before = g;
        let Ghost(ng) = insert_sorted(&mut sorted, Ghost(g), t);
        proof {
            g = ng;
            assert forall|w: Seq<char>| g.contains(w) <==> cg.take(i + 1).contains(w) by {
                assert(cg.take(i + 1) =~= cg.take(i as int).push(cg[i as int]));
                let t1 = cg.take(i + 1);
                let t0 = cg.take(i as int);
                if t1.contains(w) {
                    let m = choose|m: int| 0 <= m < t1.len() && #[trigger] t1[m] == w;
                    if m < i {
                        assert(t0[m] == w);
                    }
                }
                if t0.contains(w) {
                    let m = choose|m: int| 0 <= m < t0.len() && #[trigger] t0[m] == w;
                    assert(t1[m] == w);
                }
                if w == cg[i as int] {
                    assert(cg.take(i + 1)[i as int] == w);
                }
            }
        }
        i = i + 1;
    }
    assert(cg.take(cands.len() as int) =~= cg);
    let mut out: Vec<String> = Vec::new();
    let mut j: usize = 0;
    while j < sorted.len()
        invariant
            0 <= j <= sorted.len(),
            sorted@.len() == g.len(),
            forall|k: int| 0 <= k < sorted@.len() ==> (#[trigger] sorted@[k])@ == g[k],
            out@.len() == j,
            forall|k: int| 0 <= k < j ==> (#[trigger] out@[k])@ == g[k],
        decreases sorted.len() - j,
    {
        out.push(string_from_chars(sorted[j].as_slice()));
        j = j + 1;
    }
    assert(out@.map_values(|s: String| s@) =~= g);
    out
}

// ---------------------------------------------------------------------------
// Keywords.
// ---------------------------------------------------------------------------

/// Number of occurrences of `w` in `ws`.
pub open spec fn occurrences(ws: Seq<Seq<char>>, w: Seq<char>) -> nat
    decreases ws.len(),
{
    if ws.len() == 0 {
        0
    } else {
        occurrences(ws.drop_last(), w) + if ws.last() == w {
            1nat
        } else {
            0nat
        }
    }
}

/// Keyword ranking: more occurrences first, ties in lexicographic order.
pub open spec fn ranked_before(ws: Seq<Seq<char>>, a: Seq<char>, b: Seq<char>) -> bool {
    occurrences(ws, a) > occurrences(ws, b) || (occurrences(ws, a) == occurrences(ws, b)
        && lex_lt(a, b))
}

/// `r` is the keyword list of the candidates `ws`: the (at most 20) distinct
/// candidates that rank first, in rank order.
pub open spec fn top_keywords(ws: Seq<Seq<char>>, r: Seq<Seq<char>>) -> bool {
    &&& r.len() <= MAX_KEYWORDS_PER_ENTRY
    &&& forall|i: int| 0 <= i < r.len() ==> ws.contains(#[trigger] r[i])
    &&& forall|i: int, j: int|
        0 <= i < j < r.len() ==> ranked_before(ws, #[trigger] r[i], #[trigger] r[j])
    &&& forall|w: Seq<char>|
        ws.contains(w) && !r.contains(w) ==> r.len() == MAX_KEYWORDS_PER_ENTRY && forall|i: int|
            0 <= i < r.len() ==> ranked_before(ws, #[trigger] r[i], w)
}

proof fn lemma_occurrences_step(ws: Seq<Seq<char>>, i: int, w: Seq<char>)
    requires
        0 <= i < ws.len(),
    ensures
        occurrences(ws.take(i + 1), w) == occurrences(ws.take(i), w) + if ws[i] == w {
            1nat
        } else {
            0nat
        },
{
    assert(ws.take(i + 1).drop_last() =~= ws.take(i));
}

proof fn lemma_occurrences_bound(ws: Seq<Seq<char>>, w: Seq<char>)
    ensures
        occurrences(ws, w) <= ws.len(),
    decreases ws.len(),
{
    if ws.len() > 0 {
        lemma_occurrences_bound(ws.drop_last(), w);
    }
}

proof fn lemma_ranked_order(ws: Seq<Seq<char>>, a: Seq<char>, b: Seq<char>, c: Seq<char>)
    ensures
        !ranked_before(ws, a, a),
        ranked_before(ws, a, b) ==> !ranked_before(ws, b, a),
        ranked_before(ws, a, b) && ranked_before(ws, b, c) ==> ranked_before(ws, a, c),
        a != b ==> ranked_before(ws, a, b) || ranked_before(ws, b, a),
{
    lemma_lex_irreflexive(a);
    lemma_lex_asymmetric(a, b);
    lemma_lex_total(a, b);
    if lex_lt(a, b) && lex_lt(b, c) {
        lemma_lex_transitive(a, b, c);
    }
}

fn ranks_before(ca: usize, a: &[char], cb: usize, b: &[char]) -> (r: bool)
    ensures
        r == (ca > cb || (ca == cb && lex_lt(a@, b@))),
{
    ca > cb || (ca == cb && chars_lt(a, b))
}

/// Position of `t` among `words`.
fn find_word(words: &Vec<Vec<char>>, g: Ghost<Seq<Seq<char>>>, t: &[char]) -> (r: Option<usize>)
    requires
        words@.len() == g@.len(),
        forall|k: int| 0 <= k < words@.len() ==> (#[trigger] words@[k])@ == g@[k],
    ensures
        r matches Some(k) ==> k < g@.len() && g@[k as int] == t@,
        r is None ==> forall|m: int| 0 <= m < g@.len() ==> g@[m] != t@,
{
    let mut k: usize = 0;
    while k < words.len()
        invariant
            0 <= k <= words.len(),
            words@.len() == g@.len(),
            forall|m: int| 0 <= m < words@.len() ==> (#[trigger] words@[m])@ == g@[m],
            forall|m: int| 0 <= m < k ==> g@[m] != t@,
        decreases words.len() - k,
    {
        if chars_eq(words[k].as_slice(), t) {
            return Some(k);
        }
        k = k + 1;
    }
    None
}

/// The distinct candidates with their occurrence counts.
fn count_distinct(cands: &Vec<Vec<char>>, cg: Ghost<Seq<Seq<char>>>) -> (r: (
    Vec<Vec<char>>,
    Vec<usize>,
    Ghost<Seq<Seq<char>>>,
))
    requires
        cands@.len() == cg@.len(),
        forall|k: int| 0 <= k < cands@.len() ==> (#[trigger] cands@[k])@ == cg@[k],
    ensures
        r.0@.len() == r.2@.len(),
        r.1@.len() == r.2@.len(),
        forall|k: int| 0 <= k < r.0@.len() ==> (#[trigger] r.0@[k])@ == r.2@[k],
        forall|k: int| 0 <= k < r.1@.len() ==> #[trigger] r.1@[k] == occurrences(cg@, r.2@[k]),
        r.2@.no_duplicates(),
        forall|w: Seq<char>| r.2@.contains(w) <==> cg@.contains(w),
{
    let ghost cs = cg@;
    let mut words: Vec<Vec<char>> = Vec::new();
    let mut counts: Vec<usize> = Vec::new();
    let ghost mut g: Seq<Seq<char>> = Seq::empty();
    let mut i: usize = 0;
    while i < cands.len()
        invariant
            0 <= i <= cands.len(),
            cands@.len() == cs.len(),
            forall|k: int| 0 <= k < cands@.len() ==> (#[trigger] cands@[k])@ == cs[k],
            words@.len() == g.len(),
            counts@.len() == g.len(),
            forall|k: int| 0 <= k < words@.len() ==> (#[trigger] words@[k])@ == g[k],
            forall|k: int|
                0 <= k < counts@.len() ==> #[trigger] counts@[k] == occurrences(cs.take(i as int), g[k]),
            forall|k: int| 0 <= k < counts@.len() ==> #[trigger] counts@[k] <= i,
            g.no_duplicates(),
            forall|w: Seq<char>| g.contains(w) <==> cs.take(i as int).contains(w),
        decreases cands.len() - i,
    {
        let t = &cands[i];
        proof {
            assert forall|w: Seq<char>| #[trigger] occurrences(cs.take(i + 1), w) == occurrences(
                cs.take(i as int),
                w,
            ) + if cs[i as int] == w {
                1nat
            } else {
                0nat
            } by {
                lemma_occurrences_step(cs, i as int, w);
            }
            assert(cs.take(i + 1) =~= cs.take(i as int).push(cs[i as int]));
            assert forall|w: Seq<char>| cs.take(i + 1).contains(w) <==> (cs.take(i as int).contains(w)
                || w == cs[i as int]) by {
                let t1 = cs.take(i + 1);
                let t0 = cs.take(i as int);
                if t1.contains(w) {
                    let m = choose|m: int| 0 <= m < t1.len() && #[trigger] t1[m] == w;
                    if m < i {
                        assert(t0[m] == w);
                    }
                }
                if t0.contains(w) {
                    let m = choose|m: int| 0 <= m < t0.len() && #[trigger] t0[m] == w;
                    assert(t1[m] == w);
                }
                if w == cs[i as int] {
                    assert(t1[i as int] == w);
                }
            }
        }
        let pos = find_word(&words, Ghost(g), t.as_slice());
        if let Some(k) = pos {
            let c = counts[k];
            counts.set(k, c + 1);
            proof {
                assert forall|m: int| 0 <= m < counts@.len() implies #[trigger] counts@[m]
                    == occurrences(cs.take(i + 1), g[m]) by {
                    if m != k {
                        assert(g[m] != g[k as int]);
                    }
                }
            }
        } else {
            words.push(t.clone());
            counts.push(1);
            proof {
                assert(!g.contains(t@)) by {
                    if g.contains(t@) {
                        let m = choose|m: int| 0 <= m < g.len() && #[trigger] g[m] == t@;
                        assert(g[m] != t@);
                        assert(false);
                    }
                }
                assert(!cs.take(i as int).contains(t@));
                assert(occurrences(cs.take(i as int), t@) == 0) by {
                    lemma_occurrences_absent(cs.take(i as int), t@);
                }
                let old_g = g;
                g = g.push(t@);
                assert forall|a: int, b: int| 0 <= a < b < g.len() implies g[a] != g[b] by {
                    if b == g.len() - 1 {
                        assert(old_g.contains(old_g[a]));
                    }
                }
                assert forall|w: Seq<char>| g.contains(w) <==> cs.take(i + 1).contains(w) by {
                    if g.contains(w) {
                        let m = choose|m: int| 0 <= m < g.len() && #[trigger] g[m] == w;
                        if m < old_g.len() {
                            assert(old_g[m] == w);
                        }
                    }
                    if old_g.contains(w) {
                        let m = choose|m: int| 0 <= m < old_g.len() && #[trigger] old_g[m] == w;
                        assert(g[m] == w);
                    }
                    if w == t@ {
                        assert(g[g.len() - 1] == w);
                    }
                }
            }
        }
        i = i + 1;
    }
    assert(cs.take(cands.len() as int) =~= cs);
    (words, counts, Ghost(g))
}

proof fn lemma_occurrences_absent(ws: Seq<Seq<char>>, w: Seq<char>)
    requires
        !ws.contains(w),
    ensures
        occurrences(ws, w) == 0,
    decreases ws.len(),
{
    if ws.len() > 0 {
        assert(!ws.drop_last().contains(w)) by {
            if ws.drop_last().contains(w) {
                let m = choose|m: int| 0 <= m < ws.drop_last().len() && #[trigger] ws.drop_last()[m] == w;
                assert(ws[m] == w);
            }
        }
        assert(ws.last() != w) by {
            if ws.last() == w {
                assert(ws[ws.len() - 1] == w);
            }
        }
        lemma_occurrences_absent(ws.drop_last(), w);
    }
}

/// The keywords of a text: its distinct lowercased words of 3 to 50 bytes
/// that are not stop words, the 20 most frequent first (ties in
/// lexicographic order).
pub fn extract_keywords(content: &str) -> (r: Vec<String>)
    ensures
        top_keywords(keyword_candidates(content@), r@.map_values(|s: String| s@)),
{
    let (cands, Ghost(cg)) = candidates(content, true);
    rank_candidates(&cands, Ghost(cg))
}

/// The characters of each word.
fn word_chars(words: &[String]) -> (r: (Vec<Vec<char>>, Ghost<Seq<Seq<char>>>))
    ensures
        r.1@ == words@.map_values(|s: String| s@),
        r.0@.len() == r.1@.len(),
        forall|k: int| 0 <= k < r.0@.len() ==> (#[trigger] r.0@[k])@ == r.1@[k],
{
    let ghost g = words@.map_values(|s: String| s@);
    let mut out: Vec<Vec<char>> = Vec::new();
    let mut i: usize = 0;
    while i < words.len()
        invariant
            i <= words.len(),
            g == words@.map_values(|s: String| s@),
            out@.len() == i,
            forall|k: int| 0 <= k < i ==> (#[trigger] out@[k])@ == g[k],
        decreases words.len() - i,
    {
        out.push(chars_of(words[i].as_str()));
        i = i + 1;
    }
    (out, Ghost(g))
}

/// Ranks candidate words, given already lowercased and filtered, with
/// repetitions: the (at most 20) distinct words that occur most often, ties
/// in lexicographic order (see [`top_keywords`]).
pub fn rank_keywords(words: &[String]) -> (r: Vec<String>)
    ensures
        top_keywords(words@.map_values(|s: String| s@), r@.map_values(|s: String| s@)),
{
    let (cands, Ghost(cg)) = word_chars(words);
    rank_candidates(&cands, Ghost(cg))
}

/// The keyword list of the candidates `cands`, whose views are `cg`.
fn rank_candidates(cands: &Vec<Vec<char>>, cg: Ghost<Seq<Seq<char>>>) -> (r: Vec<String>)
    requires
        cands@.len() == cg@.len(),
        forall|k: int| 0 <= k < cands@.len() ==> (#[trigger] cands@[k])@ == cg@[k],
    ensures
        top_keywords(cg@, r@.map_values(|s: String| s@)),
{
    let Ghost(cg) = cg;
    let (words, counts, Ghost(gd)) = count_distinct(cands, Ghost(cg));
    let n = words.len();
    let mut taken: Vec<bool> = Vec::new();
    let mut z: usize = 0;
    while z < n
        invariant
            0 <= z <= n,
            taken@.len() == z,
            forall|k: int| 0 <= k < z ==> !(#[trigger] taken@[k]),
        decreases n - z,
    {
        taken.push(false);
        z = z + 1;
    }
    let mut chosen: Vec<String> = Vec::new();
    let ghost mut gc: Seq<Seq<char>> = Seq::empty();
    let mut done = false;
    while !done && chosen.len() < MAX_KEYWORDS_PER_ENTRY
        invariant
            n == words@.len(),
            words@.len() == gd.len(),
            counts@.len() == gd.len(),
            taken@.len() == gd.len(),
            forall|k: int| 0 <= k < words@.len() ==> (#[trigger] words@[k])@ == gd[k],
            forall|k: int| 0 <= k < counts@.len() ==> #[trigger] counts@[k] == occurrences(cg, gd[k]),
            gd.no_duplicates(),
            forall|w: Seq<char>| gd.contains(w) <==> cg.contains(w),
            chosen@.len() == gc.len(),
            gc.len() <= MAX_KEYWORDS_PER_ENTRY,
            forall|k: int| 0 <= k < chosen@.len() ==> (#[trigger] chosen@[k])@ == gc[k],
            forall|k: int| 0 <= k < gd.len() ==> (#[trigger] taken@[k] <==> gc.contains(gd[k])),
            forall|i: int| 0 <= i < gc.len() ==> gd.contains(#[trigger] gc[i]),
            forall|i: int, j: int|
                0 <= i < j < gc.len() ==> ranked_before(cg, #[trigger] gc[i], #[trigger] gc[j]),
            forall|i: int, k: int|
                0 <= i < gc.len() && 0 <= k < gd.len() && !taken@[k] ==> ranked_before(
                    cg,
                    #[trigger] gc[i],
                    #[trigger] gd[k],
                ),
            done ==> forall|k: int| 0 <= k < gd.len() ==> #[trigger] taken@[k],
        decreases MAX_KEYWORDS_PER_ENTRY - chosen@.len(), if done { 0int } else { 1int },
    {
        // Find the best word not yet chosen.
        let mut best: usize = n;
        let mut k: usize = 0;
        while k < n
            invariant
                n == words@.len(),
                words@.len() == gd.len(),
                counts@.len() == gd.len(),
                taken@.len() == gd.len(),
                forall|m: int| 0 <= m < words@.len() ==> (#[trigger] words@[m])@ == gd[m],
                forall|m: int| 0 <= m < counts@.len() ==> #[trigger] counts@[m] == occurrences(cg, gd[m]),
                gd.no_duplicates(),
                0 <= k <= n,
                best == n || (best < k && !taken@[best as int]),
                best == n ==> forall|m: int| 0 <= m < k ==> #[trigger] taken@[m],
                best < n ==> forall|m: int|
                    0 <= m < k && !taken@[m] && m != best ==> ranked_before(
                        cg,
                        gd[best as int],
                        #[trigger] gd[m],
                    ),
            decreases n - k,
        {
            if !taken[k] {
                if best == n {
                    best = k;
                } else if ranks_before(
                    counts[k],
                    words[k].as_slice(),
                    counts[best],
                    words[best].as_slice(),
                ) {
                    proof {
                        assert forall|m: int|
                            0 <= m < k + 1 && !taken@[m] && m != k implies ranked_before(
                            cg,
                            gd[k as int],
                            #[trigger] gd[m],
                        ) by {
                            if m != best {
                                lemma_ranked_order(cg, gd[k as int], gd[best as int], gd[m]);
                            }
                        }
                    }
                    best = k;
                } else {
                    proof {
                        assert(gd[k as int] != gd[best as int]);
                        lemma_ranked_order(cg, gd[k as int], gd[best as int], gd[best as int]);
                    }
                }
            }
            k = k + 1;
        }
        if best == n {
            done = true;
        } else {
            let ghost b = gd[best as int];
            proof {
                assert forall|i: int| 0 <= i < gc.len() implies gc[i] != b by {
                    assert(ranked_before(cg, gc[i], b));
                    lemma_ranked_order(cg, b, b, b);
                }
            }
            taken.set(best, true);
            chosen.push(string_from_chars(words[best].as_slice()));
            proof {
                let old_gc = gc;
                gc = gc.push(b);
                assert forall|m: int| 0 <= m < gd.len() implies (#[trigger] taken@[m] <==> gc.contains(
                    gd[m],
                )) by {
                    if m == best {
                        assert(gc[gc.len() - 1] == gd[m]);
                    } else {
                        assert(gd[m] != b);
                        if old_gc.contains(gd[m]) {
                            let x = choose|x: int| 0 <= x < old_gc.len() && #[trigger] old_gc[x] == gd[m];
                            assert(gc[x] == gd[m]);
                        }
                        if gc.contains(gd[m]) {
                            let x = choose|x: int| 0 <= x < gc.len() && #[trigger] gc[x] == gd[m];
                            if x < old_gc.len() {
                                assert(old_gc[x] == gd[m]);
                            }
                        }
                    }
                }
                assert forall|i: int| 0 <= i < gc.len() implies gd.contains(#[trigger] gc[i]) by {
                    if i == gc.len() - 1 {
                        assert(gd[best as int] == gc[i]);
                    } else {
                        assert(gc[i] == old_gc[i]);
                    }
                }
                assert forall|i: int, j: int|
                    0 <= i < j < gc.len() implies ranked_before(cg, #[trigger] gc[i], #[trigger] gc[j]) by {
                    if j == gc.len() - 1 {
                        assert(gc[i] == old_gc[i]);
                    } else {
                        assert(gc[i] == old_gc[i]);
                        assert(gc[j] == old_gc[j]);
                    }
                }
                assert forall|i: int, m: int|
                    0 <= i < gc.len() && 0 <= m < gd.len() && !taken@[m] implies ranked_before(
                    cg,
                    #[trigger] gc[i],
                    #[trigger] gd[m],
                ) by {
                    if i < old_gc.len() {
                        assert(gc[i] == old_gc[i]);
                    }
                }
            }
        }
    }
    proof {
        assert forall|w: Seq<char>|
            cg.contains(w) && !gc.contains(w) implies gc.len() == MAX_KEYWORDS_PER_ENTRY && forall|
            i: int,
        | 0 <= i < gc.len() ==> ranked_before(cg, #[trigger] gc[i], w) by {
            assert(gd.contains(w));
            let m = choose|m: int| 0 <= m < gd.len() && #[trigger] gd[m] == w;
            assert(!taken@[m]);
        }
        assert forall|i: int| 0 <= i < gc.len() implies cg.contains(#[trigger] gc[i]) by {
            assert(gd.contains(gc[i]));
        }
        assert(chosen@.map_values(|s: String| s@) =~= gc);
    }
    chosen
}

// ---------------------------------------------------------------------------
// Previews.
// ---------------------------------------------------------------------------

/// Length of the longest prefix of `s[i..]` whose UTF-8 encoding fits in
/// `budget` bytes, plus `i`.
pub open spec fn fit_from(s: Seq<char>, i: int, budget: int) -> int
    decreases s.len() - i,
{
    if i < 0 || i >= s.len() || char_utf8_len(s[i]) > budget {
        i
    } else {
        fit_from(s, i + 1, budget - char_utf8_len(s[i]))
    }
}

/// `content` cut to fit `max_tokens` tokens of 4 bytes: unchanged when its
/// UTF-8 length fits, otherwise its longest prefix that fits followed by `…`.
pub open spec fn truncated(content: Seq<char>, max_tokens: usize) -> Seq<char> {
    let max_bytes = max_tokens * CHARS_PER_TOKEN;
    if str_len(content) <= max_bytes {
        content
    } else {
        content.take(fit_from(content, 0, max_bytes)) + seq!['\u{2026}']
    }
}

proof fn lemma_fit_from_bounds(s: Seq<char>, i: int, budget: int)
    requires
        0 <= i <= s.len(),
    ensures
        i <= fit_from(s, i, budget) <= s.len(),
    decreases s.len() - i,
{
    if i < s.len() && char_utf8_len(s[i]) <= budget {
        lemma_fit_from_bounds(s, i + 1, budget - char_utf8_len(s[i]));
    }
}

/// Cuts `content` to `max_tokens` tokens (see [`truncated`]).
pub fn truncate_to_budget(content: &str, max_tokens: usize) -> (r: String)
    requires
        max_tokens * CHARS_PER_TOKEN <= usize::MAX,
    ensures
        r@ == truncated(content@, max_tokens),
{
    let max_chars = max_tokens * CHARS_PER_TOKEN;
    if byte_len(content) <= max_chars {
        return crate::text::owned(content);
    }
    let cs = chars_of(content);
    let mut used: usize = 0;
    let mut i: usize = 0;
    while i < cs.len() && char_len_utf8(cs[i]) <= max_chars - used
        invariant
            0 <= i <= cs.len(),
            cs@ == content@,
            used <= max_chars,
            fit_from(cs@, i as int, max_chars - used) == fit_from(cs@, 0, max_chars as int),
        decreases cs.len() - i,
    {
        used = used + char_len_utf8(cs[i]);
        i = i + 1;
    }
    let mut out: Vec<char> = Vec::new();
    let mut j: usize = 0;
    while j < i
        invariant
            0 <= j <= i <= cs.len(),
            out@ == cs@.take(j as int),
        decreases i - j,
    {
        out.push(cs[j]);
        j = j + 1;
        assert(out@ =~= cs@.take(j as int));
    }
    out.push('\u{2026}');
    string_from_chars(out.as_slice())
}

// ---------------------------------------------------------------------------
// Budget selection.
// ---------------------------------------------------------------------------

/// Token estimates of the matches taken, in score order, from entries of
/// `tokens` original tokens each, within a budget of `remaining` tokens: each
/// match gets what is left of the budget, at most its own size; selection
/// stops when nothing is left.
pub open spec fn budget_plan(tokens: Seq<usize>, remaining: usize) -> Seq<usize>
    decreases tokens.len(),
{
    if tokens.len() == 0 {
        Seq::empty()
    } else {
        let est = if tokens[0] < remaining {
            tokens[0]
        } else {
            remaining
        };
        if est == 0 {
            Seq::empty()
        } else {
            let rest: usize = if remaining > tokens[0] {
                (remaining - tokens[0]) as usize
            } else {
                0
            };
            if rest == 0 {
                seq![est]
            } else {
                seq![est] + budget_plan(tokens.drop_first(), rest)
            }
        }
    }
}

/// Sum of a sequence of counts.
pub open spec fn total(s: Seq<usize>) -> nat
    decreases s.len(),
{
    if s.len() == 0 {
        0
    } else {
        s[0] as nat + total(s.drop_first())
    }
}

/// Picks, in score order, the matches that fit the token budget (see
/// [`budget_plan`]); `original_tokens` holds the sizes of the scored entries,
/// best first.
pub fn select_within_budget(original_tokens: &[usize], budget: usize) -> (r: Vec<usize>)
    ensures
        r@ == budget_plan(original_tokens@, budget),
{
    let mut out: Vec<usize> = Vec::new();
    let mut remaining = budget;
    let mut i: usize = 0;
    assert(original_tokens@.skip(0) =~= original_tokens@);
    while i < original_tokens.len()
        invariant
            0 <= i <= original_tokens.len(),
            remaining > 0 || i == 0,
            out@ + budget_plan(original_tokens@.skip(i as int), remaining) == budget_plan(
                original_tokens@,
                budget,
            ),
        decreases original_tokens.len() - i,
    {
        let ghost rest = original_tokens@.skip(i as int);
        let t = original_tokens[i];
        let est = if t < remaining {
            t
        } else {
            remaining
        };
        if est == 0 {
            assert(budget_plan(rest, remaining) =~= Seq::<usize>::empty());
            assert(out@ + Seq::<usize>::empty() =~= out@);
            return out;
        }
        out.push(est);
        remaining = remaining.saturating_sub(t);
        proof {
            assert(rest[0] == t);
            assert(rest.drop_first() =~= original_tokens@.skip(i + 1));
        }
        if remaining == 0 {
            assert(out@ =~= budget_plan(original_tokens@, budget));
            return out;
        }
        assert(out@ + budget_plan(original_tokens@.skip(i + 1), remaining) =~= budget_plan(
            original_tokens@,
            budget,
        ));
        i = i + 1;
    }
    assert(out@ + budget_plan(original_tokens@.skip(i as int), remaining) =~= out@);
    out
}

proof fn lemma_budget_plan_total(tokens: Seq<usize>, remaining: usize)
    ensures
        total(budget_plan(tokens, remaining)) <= remaining,
        forall|i: int| 0 <= i < budget_plan(tokens, remaining).len() ==> #[trigger] budget_plan(
            tokens,
            remaining,
        )[i] > 0,
    decreases tokens.len(),
{
    if tokens.len() > 0 {
        let est = if tokens[0] < remaining {
            tokens[0]
        } else {
            remaining
        };
        let rest: usize = if remaining > tokens[0] {
            (remaining - tokens[0]) as usize
        } else {
            0
        };
        if est > 0 && rest > 0 {
            lemma_budget_plan_total(tokens.drop_first(), rest);
            let p = budget_plan(tokens, remaining);
            assert(p.drop_first() =~= budget_plan(tokens.drop_first(), rest));
            assert(p[0] == est);
            assert(total(p) == p[0] + total(p.drop_first()));
        } else if est > 0 {
            let p = budget_plan(tokens, remaining);
            assert(p.drop_first() =~= Seq::<usize>::empty());
            assert(p[0] == est);
            assert(total(p) == p[0] + total(p.drop_first()));
        }
    }
}

/// The selected matches never exceed the token budget, and every selected
/// match gets at least one token.
pub proof fn law_selection_respects_budget(tokens: Seq<usize>, budget: usize)
    ensures
        total(budget_plan(tokens, budget)) <= budget,
        budget_plan(tokens, budget).len() <= tokens.len(),
        forall|i: int| 0 <= i < budget_plan(tokens, budget).len() ==> #[trigger] budget_plan(
            tokens,
            budget,
        )[i] > 0,
{
    lemma_budget_plan_total(tokens, budget);
    lemma_budget_plan_len(tokens, budget);
}

proof fn lemma_budget_plan_len(tokens: Seq<usize>, remaining: usize)
    ensures
        budget_plan(tokens, remaining).len() <= tokens.len(),
    decreases tokens.len(),
{
    if tokens.len() > 0 {
        let rest: usize = if remaining > tokens[0] {
            (remaining - tokens[0]) as usize
        } else {
            0
        };
        lemma_budget_plan_len(tokens.drop_first(), rest);
    }
}

// ---------------------------------------------------------------------------
// The entry index.
// ---------------------------------------------------------------------------

/// One piece of compressed content with its keywords.
pub struct CompressedContentEntry {
    pub handle: String,
    pub keywords: Vec<String>,
    pub source_tool: &'static str,
    pub original_tokens: usize,
    pub compressed_tokens: usize,
    pub seq_tick: u64,
}

/// The keyword index of all compressed content: at most [`MAX_ENTRIES`]
/// entries, oldest first, stamped with a monotonic sequence tick.
pub struct KeywordIndex {
    pub entries: Vec<CompressedContentEntry>,
    pub seq_counter: u64,
}

impl KeywordIndex {
    /// At most `MAX_ENTRIES` entries, ticks strictly increasing and not past
    /// the counter.
    pub open spec fn wf(&self) -> bool {
        &&& self.entries@.len() <= MAX_ENTRIES
        &&& forall|i: int, j: int|
            0 <= i < j < self.entries@.len() ==> (#[trigger] self.entries@[i]).seq_tick
                < (#[trigger] self.entries@[j]).seq_tick
        &&& forall|i: int|
            0 <= i < self.entries@.len() ==> (#[trigger] self.entries@[i]).seq_tick
                <= self.seq_counter
    }

    /// An empty index.
    pub fn new() -> (s: Self)
        ensures
            s.wf(),
            s.entries@.len() == 0,
            s.seq_counter == 0,
    {
        KeywordIndex { entries: Vec::new(), seq_counter: 0 }
    }

    /// Registers compressed content: its keywords are extracted from the
    /// original text and it is stamped with the next tick; when the index
    /// then holds more than `MAX_ENTRIES` entries the oldest is evicted.
    pub fn register(
        &mut self,
        handle: String,
        original_content: &str,
        source_tool: &'static str,
        original_tokens: usize,
        compressed_tokens: usize,
    )
        requires
            old(self).wf(),
            old(self).seq_counter < u64::MAX,
        ensures
            final(self).wf(),
            final(self).seq_counter == old(self).seq_counter + 1,
            final(self).entries@.len() == if old(self).entries@.len() < MAX_ENTRIES {
                old(self).entries@.len() + 1
            } else {
                MAX_ENTRIES as nat
            },
            final(self).entries@.last().handle == handle,
            final(self).entries@.last().source_tool == source_tool,
            final(self).entries@.last().original_tokens == original_tokens,
            final(self).entries@.last().compressed_tokens == compressed_tokens,
            final(self).entries@.last().seq_tick == final(self).seq_counter,
            top_keywords(
                keyword_candidates(original_content@),
                final(self).entries@.last().keywords@.map_values(|k: String| k@),
            ),
            final(self).entries@.drop_last() == old(self).entries@.skip(
                old(self).entries@.len() + 1 - final(self).entries@.len(),
            ),
    {
        let tick = self.seq_counter + 1;
        self.seq_counter = tick;
        let keywords = extract_keywords(original_content);
        let entry = CompressedContentEntry {
            handle,
            keywords,
            source_tool,
            original_tokens,
            compressed_tokens,
            seq_tick: tick,
        };
        let ghost before = self.entries@;
        self.entries.push(entry);
        if self.entries.len() > MAX_ENTRIES {
            // The entries are in tick order, so the oldest is the first.
            self.entries.remove(0);
            assert(self.entries@.drop_last() =~= before.skip(1));
        } else {
            assert(self.entries@.drop_last() =~= before.skip(0));
        }
        assert forall|i: int, j: int|
            0 <= i < j < self.entries@.len() implies (#[trigger] self.entries@[i]).seq_tick
            < (#[trigger] self.entries@[j]).seq_tick by {
            if before.len() + 1 > MAX_ENTRIES {
                assert(self.entries@[i] == before.push(self.entries@.last())[i + 1]);
                assert(self.entries@[j] == before.push(self.entries@.last())[j + 1]);
            } else {
                assert(self.entries@[i] == before.push(self.entries@.last())[i]);
                assert(self.entries@[j] == before.push(self.entries@.last())[j]);
            }
        }
    }
}

/// `w` is neither a query-term nor a keyword candidate of `text`.
pub open spec fn never_a_term(text: Seq<char>, w: Seq<char>) -> bool {
    !query_candidates(text).contains(w) && !keyword_candidates(text).contains(w)
}

proof fn lemma_select_keeps(ws: Seq<Seq<char>>, keep: spec_fn(Seq<char>) -> bool)
    ensures
        forall|i: int| 0 <= i < select(ws, keep).len() ==> keep(#[trigger] select(ws, keep)[i]),
    decreases ws.len(),
{
    if ws.len() > 0 {
        lemma_select_keeps(ws.drop_last(), keep);
        let p = select(ws.drop_last(), keep);
        assert forall|i: int| 0 <= i < select(ws, keep).len() implies keep(
            #[trigger] select(ws, keep)[i],
        ) by {
            if i < p.len() {
                assert(select(ws, keep)[i] == p[i]);
            }
        }
    }
}

/// A stop word is never a term: no query term or keyword of any text is one
/// of the stop words.
pub proof fn law_stop_words_never_terms(text: Seq<char>)
    ensures
        never_a_term(text, "the"@),
        never_a_term(text, "and"@),
        never_a_term(text, "for"@),
        never_a_term(text, "are"@),
        never_a_term(text, "but"@),
        never_a_term(text, "not"@),
        never_a_term(text, "you"@),
        never_a_term(text, "all"@),
        never_a_term(text, "can"@),
        never_a_term(text, "had"@),
        never_a_term(text, "her"@),
        never_a_term(text, "was"@),
        never_a_term(text, "one"@),
        never_a_term(text, "our"@),
        never_a_term(text, "out"@),
        never_a_term(text, "has"@),
        never_a_term(text, "his"@),
        never_a_term(text, "how"@),
        never_a_term(text, "its"@),
        never_a_term(text, "let"@),
        never_a_term(text, "may"@),
        never_a_term(text, "new"@),
        never_a_term(text, "now"@),
        never_a_term(text, "old"@),
        never_a_term(text, "see"@),
        never_a_term(text, "way"@),
        never_a_term(text, "who"@),
        never_a_term(text, "did"@),
        never_a_term(text, "get"@),
        never_a_term(text, "got"@),
        never_a_term(text, "him"@),
        never_a_term(text, "hit"@),
        never_a_term(text, "lot"@),
        never_a_term(text, "set"@),
        never_a_term(text, "try"@),
        never_a_term(text, "use"@),
        never_a_term(text, "from"@),
        never_a_term(text, "have"@),
        never_a_term(text, "that"@),
        never_a_term(text, "this"@),
        never_a_term(text, "with"@),
        never_a_term(text, "will"@),
        never_a_term(text, "been"@),
        never_a_term(text, "each"@),
        never_a_term(text, "make"@),
        never_a_term(text, "like"@),
        never_a_term(text, "long"@),
        never_a_term(text, "look"@),
        never_a_term(text, "many"@),
        never_a_term(text, "most"@),
        never_a_term(text, "over"@),
        never_a_term(text, "such"@),
        never_a_term(text, "take"@),
        never_a_term(text, "than"@),
        never_a_term(text, "them"@),
        never_a_term(text, "then"@),
        never_a_term(text, "very"@),
        never_a_term(text, "when"@),
        never_a_term(text, "come"@),
        never_a_term(text, "here"@),
        never_a_term(text, "just"@),
        never_a_term(text, "made"@),
        never_a_term(text, "more"@),
        never_a_term(text, "also"@),
        never_a_term(text, "what"@),
        never_a_term(text, "into"@),
        never_a_term(text, "only"@),
        never_a_term(text, "some"@),
        never_a_term(text, "could"@),
        never_a_term(text, "would"@),
        never_a_term(text, "should"@),
        never_a_term(text, "there"@),
        never_a_term(text, "their"@),
        never_a_term(text, "which"@),
        never_a_term(text, "about"@),
        never_a_term(text, "these"@),
        never_a_term(text, "other"@),
        never_a_term(text, "where"@),
        never_a_term(text, "after"@),
        never_a_term(text, "being"@),
        never_a_term(text, "those"@),
        never_a_term(text, "still"@),
{
    lemma_select_keeps(lowered_words(text), query_term_f());
    lemma_select_keeps(lowered_words(text), keyword_term_f());
}

} // verus!
