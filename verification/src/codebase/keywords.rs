//! Keyword extraction from a natural-language query: split into words, lower
//! case, drop stop words and too-short words, remove duplicates keeping first
//! occurrences, and add single characters of pure-CJK words.

use vstd::prelude::*;
use crate::text::{
    byte_len, char_is_alnum, char_len_utf8, chars_of, contains_chars, eq_chars, is_alnum,
    lemma_byte_len_push, lemma_suffix_step, lower, runs, runs_acc, emit, single,
    slice_chars, strs, to_lowercase_string, to_strings, views,
};

verus! {

/// English and Chinese stop words.
pub open spec fn stop_word_list() -> Seq<&'static str> {
    seq![
        "a", "an", "the", "is", "are", "was", "were", "be", "been", "being", "have", "has",
        "had", "do", "does", "did", "will", "would", "could", "should", "may", "might", "must",
        "shall", "can", "to", "of", "in", "on", "at", "by", "for", "with", "about", "against",
        "between", "into", "through", "during", "before", "after", "above", "below", "from",
        "up", "down", "out", "off", "over", "under", "again", "further", "then", "once", "and",
        "or", "but", "if", "else", "when", "where", "why", "how", "all", "each", "every",
        "both", "few", "more", "most", "other", "some", "such", "no", "nor", "not", "only",
        "own", "same", "so", "than", "too", "very", "i", "me", "my", "we", "our", "you",
        "your", "he", "him", "his", "she", "her", "it", "its", "they", "them", "their", "what",
        "which", "who", "whom", "的", "了", "在", "是", "我", "你", "他", "她", "它", "们", "这", "那",
        "和", "与", "或", "但", "如果", "那么", "当", "为", "把", "被", "让", "可以", "能", "会", "要", "想", "做",
        "去", "来", "到", "上", "下", "里", "外", "中", "前", "后",
    ]
}

/// `w` is one of the stop words.
pub open spec fn is_stop_word(w: Seq<char>) -> bool {
    exists|i: int| 0 <= i < stop_word_list().len() && #[trigger] stop_word_list()[i]@ == w
}

fn stop_words() -> (v: Vec<&'static str>)
    ensures
        v@ == stop_word_list(),
{
    let v = vec![
        "a", "an", "the", "is", "are", "was", "were", "be", "been", "being", "have", "has",
        "had", "do", "does", "did", "will", "would", "could", "should", "may", "might", "must",
        "shall", "can", "to", "of", "in", "on", "at", "by", "for", "with", "about", "against",
        "between", "into", "through", "during", "before", "after", "above", "below", "from",
        "up", "down", "out", "off", "over", "under", "again", "further", "then", "once", "and",
        "or", "but", "if", "else", "when", "where", "why", "how", "all", "each", "every",
        "both", "few", "more", "most", "other", "some", "such", "no", "nor", "not", "only",
        "own", "same", "so", "than", "too", "very", "i", "me", "my", "we", "our", "you",
        "your", "he", "him", "his", "she", "her", "it", "its", "they", "them", "their", "what",
        "which", "who", "whom", "的", "了", "在", "是", "我", "你", "他", "她", "它", "们", "这", "那",
        "和", "与", "或", "但", "如果", "那么", "当", "为", "把", "被", "让", "可以", "能", "会", "要", "想", "做",
        "去", "来", "到", "上", "下", "里", "外", "中", "前", "后",
    ];
    assert(v@ =~= stop_word_list());
    v
}

/// Whether `w` is a stop word.
pub fn stop_word(w: &[char]) -> (b: bool)
    ensures
        b == is_stop_word(w@),
{
    let list = stop_words();
    let mut i: usize = 0;
    while i < list.len()
        invariant
            list@ == stop_word_list(),
            i <= list.len(),
            forall|j: int| 0 <= j < i ==> stop_word_list()[j]@ != w@,
        decreases list.len() - i,
    {
        let cs = chars_of(list[i]);
        if eq_chars(&cs, w) {
            return true;
        }
        i = i + 1;
    }
    false
}

/// CJK unified ideographs block `U+4E00..=U+9FFF`.
pub open spec fn is_cjk_unified(c: char) -> bool {
    '\u{4e00}' <= c && c <= '\u{9fff}'
}

pub fn cjk_unified(c: char) -> (b: bool)
    ensures
        b == is_cjk_unified(c),
{
    '\u{4e00}' <= c && c <= '\u{9fff}'
}

/// Characters that belong to a word: alphanumeric, `_`, or a CJK ideograph.
pub open spec fn is_word_char(c: char) -> bool {
    is_alnum(c) || c == '_' || is_cjk_unified(c)
}

/// Words of a query: maximal runs of word characters.
pub open spec fn word_tokens(s: Seq<char>) -> Seq<Seq<char>> {
    runs(s, |c: char| is_word_char(c))
}

/// Every character of `s` is a CJK ideograph.
pub open spec fn pure_cjk(s: Seq<char>) -> bool {
    forall|i: int| 0 <= i < s.len() ==> is_cjk_unified(#[trigger] s[i])
}

/// A keyword is non-empty, and at least two bytes long unless it holds a CJK ideograph.
pub open spec fn valid_keyword(s: Seq<char>) -> bool {
    s.len() > 0 && (byte_len(s) >= 2 || exists|i: int| 0 <= i < s.len() && is_cjk_unified(
        #[trigger] s[i],
    ))
}

/// `res` with `k` appended unless already present.
pub open spec fn add_unique(res: Seq<Seq<char>>, k: Seq<char>) -> Seq<Seq<char>> {
    if res.contains(k) {
        res
    } else {
        res.push(k)
    }
}

/// Single characters of a pure-CJK word `w`, from index `i` on, added to `res`.
pub open spec fn absorb_chars(res: Seq<Seq<char>>, w: Seq<char>, i: int) -> Seq<Seq<char>>
    decreases w.len() - i,
{
    if i < 0 || i >= w.len() {
        res
    } else {
        let s = seq![w[i]];
        let r2 = if valid_keyword(s) && !is_stop_word(s) {
            add_unique(res, s)
        } else {
            res
        };
        absorb_chars(r2, w, i + 1)
    }
}

/// The keywords that one query word contributes to `res`.
pub open spec fn absorb_token(res: Seq<Seq<char>>, tok: Seq<char>) -> Seq<Seq<char>> {
    absorb_word(res, lower(tok))
}

/// The keywords that one lower-cased query word `lw` contributes to `res`.
pub open spec fn absorb_word(res: Seq<Seq<char>>, lw: Seq<char>) -> Seq<Seq<char>> {
    if !valid_keyword(lw) || is_stop_word(lw) {
        res
    } else {
        let r1 = add_unique(res, lw);
        if lw.len() > 1 && pure_cjk(lw) {
            absorb_chars(r1, lw, 0)
        } else {
            r1
        }
    }
}

/// Keywords contributed by the words `toks[i..]`, after those already in `res`.
pub open spec fn keywords_from(res: Seq<Seq<char>>, toks: Seq<Seq<char>>, i: int) -> Seq<
    Seq<char>,
>
    decreases toks.len() - i,
{
    if i < 0 || i >= toks.len() {
        res
    } else {
        keywords_from(absorb_token(res, toks[i]), toks, i + 1)
    }
}

/// The keywords of a query, in order of first occurrence.
pub open spec fn keywords(q: Seq<char>) -> Seq<Seq<char>> {
    keywords_from(Seq::empty(), word_tokens(q), 0)
}

/// Keywords contributed by the lower-cased words `lws[i..]`, after those
/// already in `res`.
pub open spec fn word_keywords_from(res: Seq<Seq<char>>, lws: Seq<Seq<char>>, i: int) -> Seq<
    Seq<char>,
>
    decreases lws.len() - i,
{
    if i < 0 || i >= lws.len() {
        res
    } else {
        word_keywords_from(absorb_word(res, lws[i]), lws, i + 1)
    }
}

/// The keywords among lower-cased words, in order of first occurrence.
pub open spec fn word_keywords(lws: Seq<Seq<char>>) -> Seq<Seq<char>> {
    word_keywords_from(Seq::empty(), lws, 0)
}

/// The keywords of a query are those of its lower-cased words.
pub proof fn lemma_keywords_of_lowered(
    res: Seq<Seq<char>>,
    toks: Seq<Seq<char>>,
    lws: Seq<Seq<char>>,
    i: int,
)
    requires
        0 <= i,
        lws.len() == toks.len(),
        forall|k: int| 0 <= k < toks.len() ==> lws[k] == lower(#[trigger] toks[k]),
    ensures
        keywords_from(res, toks, i) == word_keywords_from(res, lws, i),
    decreases toks.len() - i,
{
    if i < toks.len() {
        assert(lws[i] == lower(toks[i]));
        lemma_keywords_of_lowered(absorb_token(res, toks[i]), toks, lws, i + 1);
    }
}

/// Whether `c` is a word character.
pub fn word_char(c: char) -> (b: bool)
    ensures
        b == is_word_char(c),
{
    char_is_alnum(c) || c == '_' || cjk_unified(c)
}

/// Splits a query into its words: maximal runs of alphanumeric characters,
/// underscores and CJK ideographs.
pub fn tokenize(s: &str) -> (v: Vec<String>)
    ensures
        strs(v@) == word_tokens(s@),
{
    let cs = chars_of(s);
    let ghost keep = |c: char| is_word_char(c);
    let mut out: Vec<Vec<char>> = Vec::new();
    let mut cur: Vec<char> = Vec::new();
    let mut i: usize = 0;
    assert(cs@.subrange(0, cs@.len() as int) =~= cs@);
    while i < cs.len()
        invariant
            i <= cs.len(),
            keep == (|c: char| is_word_char(c)),
            views(out@) + runs_acc(cs@.subrange(i as int, cs@.len() as int), keep, cur@) == runs(
                cs@,
                keep,
            ),
        decreases cs.len() - i,
    {
        proof {
            lemma_suffix_step(cs@, i as int);
        }
        let c = cs[i];
        if word_char(c) {
            cur.push(c);
        } else {
            if cur.len() > 0 {
                let ghost before = out@;
                out.push(cur);
                assert(views(out@) =~= views(before) + emit(cur@));
            } else {
                assert(emit(cur@) =~= Seq::<Seq<char>>::empty());
                assert(views(out@) + emit(cur@) =~= views(out@));
            }
            cur = Vec::new();
            assert(cur@ =~= Seq::<char>::empty());
        }
        i = i + 1;
    }
    assert(cs@.subrange(i as int, cs@.len() as int) =~= Seq::<char>::empty());
    if cur.len() > 0 {
        let ghost before = out@;
        out.push(cur);
        assert(views(out@) =~= views(before) + emit(cur@));
    } else {
        assert(views(out@) + emit(cur@) =~= views(out@));
    }
    let r = to_strings(&out);
    r
}

/// Every character is a CJK ideograph.
pub fn is_pure_cjk(s: &[char]) -> (b: bool)
    ensures
        b == pure_cjk(s@),
{
    let mut i: usize = 0;
    while i < s.len()
        invariant
            i <= s.len(),
            forall|j: int| 0 <= j < i ==> is_cjk_unified(#[trigger] s@[j]),
        decreases s.len() - i,
    {
        if !cjk_unified(s[i]) {
            return false;
        }
        i = i + 1;
    }
    true
}

/// Byte length of the UTF-8 encoding of `s`, saturating at `usize::MAX`.
pub fn utf8_len(s: &[char]) -> (n: usize)
    ensures
        n == if byte_len(s@) <= usize::MAX { byte_len(s@) } else { usize::MAX as nat },
{
    let mut n: usize = 0;
    let mut i: usize = 0;
    let ghost mut sat = false;
    while i < s.len()
        invariant
            i <= s.len(),
            n == if byte_len(s@.subrange(0, i as int)) <= usize::MAX {
                byte_len(s@.subrange(0, i as int))
            } else {
                usize::MAX as nat
            },
        decreases s.len() - i,
    {
        proof {
            assert(s@.subrange(0, i + 1) =~= s@.subrange(0, i as int).push(s@[i as int]));
            lemma_byte_len_push(s@.subrange(0, i as int), s@[i as int]);
        }
        let w = char_len_utf8(s[i]);
        if n > usize::MAX - w {
            n = usize::MAX;
        } else {
            n = n + w;
        }
        i = i + 1;
    }
    assert(s@.subrange(0, i as int) =~= s@);
    n
}

/// A keyword is non-empty, and at least two bytes long unless it holds a CJK ideograph.
pub fn is_valid_keyword(s: &[char]) -> (b: bool)
    ensures
        b == valid_keyword(s@),
{
    if s.len() == 0 {
        return false;
    }
    if utf8_len(s) >= 2 {
        return true;
    }
    let mut i: usize = 0;
    while i < s.len()
        invariant
            i <= s.len(),
            forall|j: int| 0 <= j < i ==> !is_cjk_unified(#[trigger] s@[j]),
        decreases s.len() - i,
    {
        if cjk_unified(s[i]) {
            return true;
        }
        i = i + 1;
    }
    false
}

fn push_unique(res: &mut Vec<Vec<char>>, k: Vec<char>)
    ensures
        views(final(res)@) == add_unique(views(old(res)@), k@),
{
    if !contains_chars(res, &k) {
        let ghost before = res@;
        res.push(k);
        assert(views(res@) =~= views(before).push(k@));
    }
}

/// Keeps the keywords among already lower-cased query words: a word too
/// short or on the stop list is dropped, a word is kept once, at its first
/// occurrence, and a pure-CJK word of several characters also contributes
/// each of its characters.
pub fn select_keywords(words: &Vec<String>) -> (r: Vec<String>)
    ensures
        strs(r@) == word_keywords(strs(words@)),
{
    let mut res: Vec<Vec<char>> = Vec::new();
    assert(views(res@) =~= Seq::<Seq<char>>::empty());
    let mut i: usize = 0;
    while i < words.len()
        invariant
            i <= words.len(),
            word_keywords_from(views(res@), strs(words@), i as int) == word_keywords(strs(words@)),
        decreases words.len() - i,
    {
        let lw = chars_of(words[i].as_str());
        assert(lw@ == strs(words@)[i as int]);
        if is_valid_keyword(&lw) && !stop_word(&lw) {
            let lw2 = slice_chars(&lw, 0, lw.len());
            assert(lw2@ =~= lw@);
            push_unique(&mut res, lw2);
            if lw.len() > 1 && is_pure_cjk(&lw) {
                let ghost r1 = views(res@);
                let mut j: usize = 0;
                while j < lw.len()
                    invariant
                        j <= lw.len(),
                        absorb_chars(views(res@), lw@, j as int) == absorb_chars(r1, lw@, 0),
                    decreases lw.len() - j,
                {
                    let s = single(lw[j]);
                    if is_valid_keyword(&s) && !stop_word(&s) {
                        push_unique(&mut res, s);
                    }
                    j = j + 1;
                }
            }
        }
        i = i + 1;
    }
    to_strings(&res)
}

/// Extracts the keywords of a natural-language query.
///
/// The query is split into words (runs of alphanumeric characters, `_` and CJK
/// ideographs); each word is lower-cased, and the keywords are selected among
/// the lower-cased words (see `select_keywords`).
pub fn extract_keywords(query: &str) -> (r: Vec<String>)
    ensures
        strs(r@) == keywords(query@),
{
    let toks = tokenize(query);
    let mut lowered: Vec<String> = Vec::new();
    let mut i: usize = 0;
    while i < toks.len()
        invariant
            i <= toks.len(),
            lowered@.len() == i,
            forall|k: int| 0 <= k < i ==> strs(lowered@)[k] == lower(#[trigger] strs(toks@)[k]),
        decreases toks.len() - i,
    {
        lowered.push(to_lowercase_string(toks[i].as_str()));
        i = i + 1;
    }
    proof {
        lemma_keywords_of_lowered(Seq::empty(), strs(toks@), strs(lowered@), 0);
    }
    select_keywords(&lowered)
}

/// Keywords as selection leaves them: each valid, none a stop word, none twice.
pub open spec fn clean_keywords(res: Seq<Seq<char>>) -> bool {
    &&& forall|k: int| 0 <= k < res.len() ==> valid_keyword(#[trigger] res[k]) && !is_stop_word(res[k])
    &&& forall|i: int, j: int| 0 <= i < j < res.len() ==> res[i] != res[j]
}

proof fn lemma_add_unique_clean(res: Seq<Seq<char>>, k: Seq<char>)
    requires
        clean_keywords(res),
        valid_keyword(k),
        !is_stop_word(k),
    ensures
        clean_keywords(add_unique(res, k)),
{
    if !res.contains(k) {
        let r = res.push(k);
        assert forall|i: int, j: int| 0 <= i < j < r.len() implies r[i] != r[j] by {
            if j == res.len() {
                assert(r[i] == res[i]);
            } else {
                assert(r[i] == res[i] && r[j] == res[j]);
            }
        }
        assert forall|m: int| 0 <= m < r.len() implies valid_keyword(#[trigger] r[m]) && !is_stop_word(r[m]) by {
            if m < res.len() {
                assert(r[m] == res[m]);
            }
        }
    }
}

proof fn lemma_absorb_chars_clean(res: Seq<Seq<char>>, w: Seq<char>, i: int)
    requires
        clean_keywords(res),
    ensures
        clean_keywords(absorb_chars(res, w, i)),
    decreases w.len() - i,
{
    if 0 <= i < w.len() {
        let s = seq![w[i]];
        if valid_keyword(s) && !is_stop_word(s) {
            lemma_add_unique_clean(res, s);
            lemma_absorb_chars_clean(add_unique(res, s), w, i + 1);
        } else {
            lemma_absorb_chars_clean(res, w, i + 1);
        }
    }
}

proof fn lemma_word_keywords_from_clean(res: Seq<Seq<char>>, lws: Seq<Seq<char>>, i: int)
    requires
        clean_keywords(res),
    ensures
        clean_keywords(word_keywords_from(res, lws, i)),
    decreases lws.len() - i,
{
    if 0 <= i < lws.len() {
        let lw = lws[i];
        if valid_keyword(lw) && !is_stop_word(lw) {
            lemma_add_unique_clean(res, lw);
            lemma_absorb_chars_clean(add_unique(res, lw), lw, 0);
        }
        lemma_word_keywords_from_clean(absorb_word(res, lw), lws, i + 1);
    }
}

/// The selected keywords are all valid, none is a stop word, and none comes
/// twice; the same holds of the keywords of any query.
pub proof fn lemma_keywords_clean(lws: Seq<Seq<char>>, q: Seq<char>)
    ensures
        clean_keywords(word_keywords(lws)),
        clean_keywords(keywords(q)),
{
    lemma_word_keywords_from_clean(Seq::empty(), lws, 0);
    let toks = word_tokens(q);
    let lowered = toks.map_values(|t: Seq<char>| lower(t));
    lemma_keywords_of_lowered(Seq::empty(), toks, lowered, 0);
    lemma_word_keywords_from_clean(Seq::empty(), lowered, 0);
}

} // verus!
