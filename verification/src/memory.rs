//! Text side of the conversation memory: the tokenizer that index and query
//! share, and the snippets shown for a hit.

use vstd::prelude::*;
use crate::text::{
    byte_len, char_is_ws, char_len_utf8, char_width, chars_of, is_ws, lemma_byte_len_prefix_mono,
    lemma_byte_len_prefix_step, lemma_suffix_step, lower, push_char, slice_chars, string_of, strs,
    to_lowercase_string,
};

verus! {

/// Largest snippet of a hit, in characters.
pub const SNIPPET_MAX_CHARS: usize = 240;

/// How a memory search ranks its hits.
#[derive(Debug, Clone, Copy, PartialEq, Eq, Structural)]
pub enum SearchMode {
    /// BM25 over tokens.
    Lexical,
    /// Cosine similarity of embeddings.
    Vector,
    /// Reciprocal-rank fusion of both (the default).
    Hybrid,
}

impl Default for SearchMode {
    /// The default mode, `Hybrid`.
    fn default() -> (m: SearchMode)
        ensures
            m == SearchMode::Hybrid,
    {
        SearchMode::Hybrid
    }
}

/// One hit of a memory search, as the reply shows it. The ranking score
/// stays with the index that computed it.
#[derive(Debug, Clone)]
pub struct MemoryHit {
    pub conversation_id: String,
    pub message_id: String,
    pub snippet: String,
    pub timestamp: u64,
    pub role: crate::models::Role,
}

/// A message goes into the memory index unless its content is blank or it
/// is a system message.
pub open spec fn indexed_message(content: Seq<char>, role: crate::models::Role) -> bool {
    crate::text::trim(content).len() > 0 && role != crate::models::Role::System
}

/// Whether a message is indexed (see `indexed_message`).
pub fn admits_message(msg: &crate::models::Message) -> (b: bool)
    ensures
        b == indexed_message(msg.content@, msg.role),
{
    let c = chars_of(msg.content.as_str());
    let t = crate::text::trim_chars(&c);
    t.len() > 0 && msg.role != crate::models::Role::System
}

/// The key of an index entry in the embedding cache: `<conversation>:<message>`.
pub fn cache_key(conversation_id: &str, message_id: &str) -> (r: String)
    ensures
        r@ == conversation_id@ + seq![':'] + message_id@,
{
    let mut v = chars_of(conversation_id);
    v.push(':');
    let m = chars_of(message_id);
    crate::text::extend_chars(&mut v, &m);
    string_of(&v)
}

/// CJK ideographs (main block, extensions A and B) and kana.
pub open spec fn is_cjk(c: char) -> bool {
    ('\u{4E00}' <= c && c <= '\u{9FFF}') || ('\u{3400}' <= c && c <= '\u{4DBF}') || (
    '\u{20000}' <= c && c <= '\u{2A6DF}') || ('\u{3040}' <= c && c <= '\u{309F}') || ('\u{30A0}'
        <= c && c <= '\u{30FF}')
}

fn cjk(c: char) -> (b: bool)
    ensures
        b == is_cjk(c),
{
    ('\u{4E00}' <= c && c <= '\u{9FFF}') || ('\u{3400}' <= c && c <= '\u{4DBF}') || ('\u{20000}'
        <= c && c <= '\u{2A6DF}') || ('\u{3040}' <= c && c <= '\u{309F}') || ('\u{30A0}' <= c
        && c <= '\u{30FF}')
}

/// Punctuation that separates tokens, besides white space.
pub open spec fn punctuation() -> Seq<char> {
    "，。、；：！？,.:;!?\"'`()[]{}【】《》"@
}

/// White space and the punctuation above separate tokens.
pub open spec fn is_separator(c: char) -> bool {
    is_ws(c) || punctuation().contains(c)
}

/// A pending run of other characters becomes one lowercase token.
pub open spec fn word_token(buf: Seq<char>) -> Seq<Seq<char>> {
    if buf.len() > 0 {
        seq![lower(buf)]
    } else {
        Seq::empty()
    }
}

/// Adjacent pairs of a CJK run.
pub open spec fn bigrams(buf: Seq<char>) -> Seq<Seq<char>> {
    if buf.len() < 2 {
        Seq::empty()
    } else {
        Seq::new((buf.len() - 1) as nat, |i: int| seq![buf[i], buf[i + 1]])
    }
}

/// Single characters of a CJK run.
pub open spec fn unigrams(buf: Seq<char>) -> Seq<Seq<char>> {
    Seq::new(buf.len(), |i: int| seq![buf[i]])
}

/// A pending CJK run becomes its bigrams, then its single characters.
pub open spec fn cjk_tokens(buf: Seq<char>) -> Seq<Seq<char>> {
    bigrams(buf) + unigrams(buf)
}

/// Tokens of `s`, continuing a pending word run `word` and CJK run `run`.
pub open spec fn tokens_acc(s: Seq<char>, word: Seq<char>, run: Seq<char>) -> Seq<Seq<char>>
    decreases s.len(),
{
    if s.len() == 0 {
        word_token(word) + cjk_tokens(run)
    } else {
        let c = s[0];
        if is_separator(c) {
            word_token(word) + cjk_tokens(run) + tokens_acc(s.drop_first(), Seq::empty(), Seq::empty())
        } else if is_cjk(c) {
            word_token(word) + tokens_acc(s.drop_first(), Seq::empty(), run.push(c))
        } else {
            cjk_tokens(run) + tokens_acc(s.drop_first(), word.push(c), Seq::empty())
        }
    }
}

/// Tokens of a text: runs between separators; a run of CJK characters gives
/// its bigrams and then its single characters, any other run one lowercase word.
pub open spec fn memory_tokens(s: Seq<char>) -> Seq<Seq<char>> {
    tokens_acc(s, Seq::empty(), Seq::empty())
}

fn flush_word(buf: &mut Vec<char>, out: &mut Vec<String>)
    ensures
        strs(final(out)@) == strs(old(out)@) + word_token(old(buf)@),
        final(buf)@.len() == 0,
{
    let ghost before = out@;
    if buf.len() > 0 {
        let s = string_of(buf.as_slice());
        out.push(to_lowercase_string(s.as_str()));
        assert(strs(out@) =~= strs(before) + word_token(old(buf)@));
    } else {
        assert(strs(out@) =~= strs(before) + word_token(old(buf)@));
    }
    buf.clear();
}

fn pair_string(a: char, b: char) -> (s: String)
    ensures
        s@ == seq![a, b],
{
    let mut s = String::new();
    push_char(&mut s, a);
    push_char(&mut s, b);
    assert(s@ =~= seq![a, b]);
    s
}

fn unit_string(a: char) -> (s: String)
    ensures
        s@ == seq![a],
{
    let mut s = String::new();
    push_char(&mut s, a);
    assert(s@ =~= seq![a]);
    s
}

fn flush_cjk(buf: &mut Vec<char>, out: &mut Vec<String>)
    ensures
        strs(final(out)@) == strs(old(out)@) + cjk_tokens(old(buf)@),
        final(buf)@.len() == 0,
{
    let ghost start = out@;
    let ghost b = buf@;
    let n = buf.len();
    if n >= 2 {
        let mut i: usize = 0;
        while i + 1 < n
            invariant
                n == buf.len(),
                b == buf@,
                n >= 2,
                i + 1 <= n,
                strs(out@) == strs(start) + bigrams(b).subrange(0, i as int),
            decreases n - i,
        {
            let ghost before = out@;
            let p = pair_string(buf[i], buf[i + 1]);
            out.push(p);
            assert(strs(out@) =~= strs(before).push(p@));
            assert(bigrams(b)[i as int] == seq![b[i as int], b[i + 1]]);
            assert(bigrams(b).subrange(0, i + 1) =~= bigrams(b).subrange(0, i as int).push(
                p@,
            ));
            assert(strs(out@) =~= strs(start) + bigrams(b).subrange(0, i + 1));
            i = i + 1;
        }
        assert(bigrams(b).subrange(0, i as int) =~= bigrams(b));
    } else {
        assert(strs(out@) =~= strs(start) + bigrams(b));
    }
    let ghost mid = out@;
    let mut j: usize = 0;
    while j < n
        invariant
            n == buf.len(),
            b == buf@,
            j <= n,
            strs(mid) == strs(start) + bigrams(b),
            strs(out@) == strs(mid) + unigrams(b).subrange(0, j as int),
        decreases n - j,
    {
        let ghost before = out@;
        let u = unit_string(buf[j]);
        out.push(u);
        assert(strs(out@) =~= strs(before).push(u@));
        assert(unigrams(b).subrange(0, j + 1) =~= unigrams(b).subrange(0, j as int).push(u@));
        assert(strs(out@) =~= strs(mid) + unigrams(b).subrange(0, j + 1));
        j = j + 1;
    }
    assert(unigrams(b).subrange(0, n as int) =~= unigrams(b));
    assert(strs(out@) =~= strs(start) + cjk_tokens(b));
    buf.clear();
}

fn separator(c: char, punct: &[char]) -> (b: bool)
    requires
        punct@ == punctuation(),
    ensures
        b == is_separator(c),
{
    if char_is_ws(c) {
        return true;
    }
    let mut k: usize = 0;
    while k < punct.len()
        invariant
            k <= punct.len(),
            punct@ == punctuation(),
            forall|j: int| 0 <= j < k ==> punct@[j] != c,
        decreases punct.len() - k,
    {
        if punct[k] == c {
            return true;
        }
        k = k + 1;
    }
    false
}

/// Splits a text into the tokens that index and query share (see `memory_tokens`).
pub fn tokenize(content: &str) -> (r: Vec<String>)
    ensures
        strs(r@) == memory_tokens(content@),
{
    let s = chars_of(content);
    let punct = chars_of("，。、；：！？,.:;!?\"'`()[]{}【】《》");
    let mut out: Vec<String> = Vec::new();
    let mut word: Vec<char> = Vec::new();
    let mut run: Vec<char> = Vec::new();
    let mut i: usize = 0;
    assert(s@.subrange(0, s@.len() as int) =~= s@);
    while i < s.len()
        invariant
            i <= s.len(),
            s@ == content@,
            punct@ == punctuation(),
            strs(out@) + tokens_acc(s@.subrange(i as int, s@.len() as int), word@, run@)
                == memory_tokens(content@),
        decreases s.len() - i,
    {
        let c = s[i];
        let ghost rest = s@.subrange(i + 1, s@.len() as int);
        let ghost w0 = word@;
        let ghost r0 = run@;
        let ghost o0 = out@;
        proof {
            lemma_suffix_step(s@, i as int);
        }
        if separator(c, &punct) {
            flush_word(&mut word, &mut out);
            flush_cjk(&mut run, &mut out);
            assert(word@ =~= Seq::<char>::empty());
            assert(run@ =~= Seq::<char>::empty());
            assert(strs(out@) + tokens_acc(rest, word@, run@) =~= strs(o0) + (word_token(w0)
                + cjk_tokens(r0) + tokens_acc(rest, Seq::empty(), Seq::empty())));
        } else if cjk(c) {
            flush_word(&mut word, &mut out);
            run.push(c);
            assert(word@ =~= Seq::<char>::empty());
            assert(strs(out@) + tokens_acc(rest, word@, run@) =~= strs(o0) + (word_token(w0)
                + tokens_acc(rest, Seq::empty(), r0.push(c))));
        } else {
            flush_cjk(&mut run, &mut out);
            word.push(c);
            assert(run@ =~= Seq::<char>::empty());
            assert(strs(out@) + tokens_acc(rest, word@, run@) =~= strs(o0) + (cjk_tokens(r0)
                + tokens_acc(rest, w0.push(c), Seq::empty())));
        }
        i = i + 1;
    }
    let ghost o1 = out@;
    let ghost w1 = word@;
    let ghost r1 = run@;
    assert(s@.subrange(i as int, s@.len() as int) =~= Seq::<char>::empty());
    flush_word(&mut word, &mut out);
    flush_cjk(&mut run, &mut out);
    assert(strs(out@) =~= strs(o1) + (word_token(w1) + cjk_tokens(r1)));
    out
}

} // verus!

verus! {

proof fn lemma_tokens_split(a: Seq<char>, b: Seq<char>, sep: char, word: Seq<char>, run: Seq<char>)
    requires
        is_separator(sep),
    ensures
        tokens_acc(a + seq![sep] + b, word, run) == tokens_acc(a, word, run) + memory_tokens(b),
    decreases a.len(),
{
    let s = a + seq![sep] + b;
    if a.len() == 0 {
        assert(s[0] == sep);
        assert(s.drop_first() =~= b);
        assert(tokens_acc(a, word, run) == word_token(word) + cjk_tokens(run));
    } else {
        let c = a[0];
        let a1 = a.drop_first();
        assert(s[0] == c);
        assert(s.drop_first() =~= a1 + seq![sep] + b);
        let e = Seq::<char>::empty();
        if is_separator(c) {
            lemma_tokens_split(a1, b, sep, e, e);
            assert(word_token(word) + cjk_tokens(run) + (tokens_acc(a1, e, e) + memory_tokens(b))
                =~= (word_token(word) + cjk_tokens(run) + tokens_acc(a1, e, e)) + memory_tokens(b));
        } else if is_cjk(c) {
            lemma_tokens_split(a1, b, sep, e, run.push(c));
            assert(word_token(word) + (tokens_acc(a1, e, run.push(c)) + memory_tokens(b))
                =~= (word_token(word) + tokens_acc(a1, e, run.push(c))) + memory_tokens(b));
        } else {
            lemma_tokens_split(a1, b, sep, word.push(c), e);
            assert(cjk_tokens(run) + (tokens_acc(a1, word.push(c), e) + memory_tokens(b))
                =~= (cjk_tokens(run) + tokens_acc(a1, word.push(c), e)) + memory_tokens(b));
        }
    }
}

/// Tokenizing two texts joined by a separator (a space, say) gives the
/// tokens of the first followed by those of the second.
pub proof fn lemma_tokenize_join(a: Seq<char>, b: Seq<char>, sep: char)
    requires
        is_separator(sep),
    ensures
        memory_tokens(a + seq![sep] + b) == memory_tokens(a) + memory_tokens(b),
{
    lemma_tokens_split(a, b, sep, Seq::empty(), Seq::empty());
}

/// A character of a word run: neither a separator nor CJK.
pub open spec fn word_char(c: char) -> bool {
    !is_separator(c) && !is_cjk(c)
}

/// What a token can be: the lowercase form of a non-empty run of word
/// characters, or one or two CJK characters.
pub open spec fn token_shape(t: Seq<char>) -> bool {
    ||| exists|w: Seq<char>|
        w.len() > 0 && (forall|i: int| 0 <= i < w.len() ==> word_char(#[trigger] w[i])) && t
            == #[trigger] lower(w)
    ||| 1 <= t.len() <= 2 && forall|i: int| 0 <= i < t.len() ==> is_cjk(#[trigger] t[i])
}

pub open spec fn all_shaped(ts: Seq<Seq<char>>) -> bool {
    forall|k: int| 0 <= k < ts.len() ==> token_shape(#[trigger] ts[k])
}

proof fn lemma_shaped_add(x: Seq<Seq<char>>, y: Seq<Seq<char>>)
    requires
        all_shaped(x),
        all_shaped(y),
    ensures
        all_shaped(x + y),
{
    assert forall|k: int| 0 <= k < (x + y).len() implies token_shape(#[trigger] (x + y)[k]) by {
        if k < x.len() {
            assert((x + y)[k] == x[k]);
        } else {
            assert((x + y)[k] == y[k - x.len()]);
        }
    }
}

proof fn lemma_runs_shaped(word: Seq<char>, run: Seq<char>)
    requires
        forall|i: int| 0 <= i < word.len() ==> word_char(#[trigger] word[i]),
        forall|i: int| 0 <= i < run.len() ==> is_cjk(#[trigger] run[i]),
    ensures
        all_shaped(word_token(word)),
        all_shaped(cjk_tokens(run)),
{
    if word.len() > 0 {
        assert(word_token(word)[0] == lower(word));
    }
    let bi = bigrams(run);
    let un = unigrams(run);
    assert forall|k: int| 0 <= k < bi.len() implies token_shape(#[trigger] bi[k]) by {
        let p = seq![run[k], run[k + 1]];
        assert(bi[k] == p);
        assert(is_cjk(p[0]) && is_cjk(p[1]));
    }
    assert forall|k: int| 0 <= k < un.len() implies token_shape(#[trigger] un[k]) by {
        assert(un[k] == seq![run[k]]);
        assert(is_cjk(seq![run[k]][0]));
    }
    lemma_shaped_add(bi, un);
}

proof fn lemma_tokens_acc_shaped(s: Seq<char>, word: Seq<char>, run: Seq<char>)
    requires
        forall|i: int| 0 <= i < word.len() ==> word_char(#[trigger] word[i]),
        forall|i: int| 0 <= i < run.len() ==> is_cjk(#[trigger] run[i]),
    ensures
        all_shaped(tokens_acc(s, word, run)),
    decreases s.len(),
{
    lemma_runs_shaped(word, run);
    let e = Seq::<char>::empty();
    if s.len() == 0 {
        lemma_shaped_add(word_token(word), cjk_tokens(run));
    } else {
        let c = s[0];
        let s1 = s.drop_first();
        if is_separator(c) {
            lemma_tokens_acc_shaped(s1, e, e);
            lemma_shaped_add(word_token(word), cjk_tokens(run));
            lemma_shaped_add(word_token(word) + cjk_tokens(run), tokens_acc(s1, e, e));
        } else if is_cjk(c) {
            let r2 = run.push(c);
            assert forall|i: int| 0 <= i < r2.len() implies is_cjk(#[trigger] r2[i]) by {
                if i < run.len() {
                    assert(r2[i] == run[i]);
                }
            }
            lemma_tokens_acc_shaped(s1, e, r2);
            lemma_shaped_add(word_token(word), tokens_acc(s1, e, r2));
        } else {
            let w2 = word.push(c);
            assert forall|i: int| 0 <= i < w2.len() implies word_char(#[trigger] w2[i]) by {
                if i < word.len() {
                    assert(w2[i] == word[i]);
                }
            }
            lemma_tokens_acc_shaped(s1, w2, e);
            lemma_shaped_add(cjk_tokens(run), tokens_acc(s1, w2, e));
        }
    }
}

/// Every token is the lowercase form of a non-empty run of characters that
/// are neither separators nor CJK, or one or two CJK characters.
pub proof fn lemma_token_shapes(s: Seq<char>)
    ensures
        forall|k: int| 0 <= k < memory_tokens(s).len() ==> token_shape(#[trigger] memory_tokens(s)[k]),
{
    lemma_tokens_acc_shaped(s, Seq::empty(), Seq::empty());
    assert(all_shaped(memory_tokens(s)));
}

} // verus!

verus! {

/// Number of leading characters of `s` that reach at least `budget` bytes
/// (the first character boundary at or after `budget`).
pub open spec fn ceil_chars(s: Seq<char>, budget: int) -> nat
    decreases s.len(),
{
    if s.len() == 0 || budget <= 0 {
        0
    } else {
        1 + ceil_chars(s.drop_first(), budget - char_width(s[0]))
    }
}

/// A hit's snippet: the content when it has at most `max_chars` characters,
/// else its first `max_chars` characters followed by `…`.
pub open spec fn snippet(s: Seq<char>, max_chars: nat) -> Seq<char> {
    if s.len() <= max_chars {
        s
    } else {
        s.take(max_chars as int).push('…')
    }
}

/// The boundary count never passes the end of `s`, is all of `s` when `s`
/// fits in the budget, and grows with the budget.
pub proof fn lemma_ceil_chars_bounds(s: Seq<char>, b: int, b2: int)
    requires
        b <= b2,
    ensures
        ceil_chars(s, b) <= s.len(),
        byte_len(s) <= b ==> ceil_chars(s, b) == s.len(),
        ceil_chars(s, b) <= ceil_chars(s, b2),
    decreases s.len(),
{
    if s.len() > 0 {
        lemma_ceil_chars_bounds(s.drop_first(), b - char_width(s[0]), b2 - char_width(s[0]));
    }
}

/// At a character boundary exactly `b > 0` bytes in, the boundary count is
/// the number of characters before it.
pub proof fn lemma_ceil_chars_exact(s: Seq<char>, k: int, b: int)
    requires
        0 <= k <= s.len(),
        b > 0,
        byte_len(s.subrange(0, k)) == b,
    ensures
        ceil_chars(s, b) == k,
    decreases k,
{
    if k == 0 {
        assert(s.subrange(0, 0) =~= Seq::<char>::empty());
    } else {
        let p = s.subrange(0, k);
        assert(p[0] == s[0]);
        assert(p.drop_first() =~= s.drop_first().subrange(0, k - 1));
        assert(byte_len(p) == char_width(s[0]) + byte_len(s.drop_first().subrange(0, k - 1)));
        let rest = b - char_width(s[0]);
        assert(ceil_chars(s, b) == 1 + ceil_chars(s.drop_first(), rest));
        if rest > 0 {
            lemma_ceil_chars_exact(s.drop_first(), k - 1, rest);
        } else {
            crate::text::lemma_byte_len_ge_len(s.drop_first().subrange(0, k - 1));
            assert(k == 1);
            assert(ceil_chars(s.drop_first(), rest) == 0);
        }
    }
}

proof fn lemma_ceil_step(s: Seq<char>, i: int, budget: int)
    requires
        0 <= i < s.len(),
    ensures
        ceil_chars(s.subrange(i, s.len() as int), budget) == if budget <= 0 {
            0
        } else {
            1 + ceil_chars(s.subrange(i + 1, s.len() as int), budget - char_width(s[i]))
        },
{
    lemma_suffix_step(s, i);
}

/// The prefix of `s` up to the first character boundary at or after `max`
/// bytes (all of `s` when it has at most `max` bytes).
pub open spec fn ceil_prefix(s: Seq<char>, max: nat) -> Seq<char> {
    if byte_len(s) <= max {
        s
    } else {
        s.subrange(0, ceil_chars(s, max as int) as int)
    }
}

/// Cuts `s` at the first character boundary at or after `max` bytes, and
/// says whether anything was cut.
pub fn cut_at_boundary(s: &[char], max: usize) -> (r: (Vec<char>, bool))
    ensures
        r.0@ == ceil_prefix(s@, max as nat),
        r.1 == (byte_len(s@) > max),
{
    let ghost n = s@.len() as int;
    let mut budget: usize = max;
    let mut over = false;
    let mut i: usize = 0;
    let ghost mut rem: int = max as int;
    assert(s@.subrange(0, n) =~= s@);
    assert(s@.subrange(0, 0) =~= Seq::<char>::empty());
    while i < s.len() && budget > 0
        invariant
            i <= s.len(),
            n == s@.len(),
            rem == max - byte_len(s@.subrange(0, i as int)),
            budget == if rem > 0 { rem } else { 0 },
            over == (rem < 0),
            ceil_chars(s@, max as int) == i + ceil_chars(s@.subrange(i as int, n), rem),
        decreases s.len() - i,
    {
        proof {
            lemma_ceil_step(s@, i as int, rem);
            lemma_byte_len_prefix_step(s@, i as int);
        }
        let w = char_len_utf8(s[i]);
        if w > budget {
            over = true;
            budget = 0;
        } else {
            budget = budget - w;
        }
        proof {
            rem = rem - w;
        }
        i = i + 1;
    }
    if i == s.len() && !over {
        return (slice_chars(s, 0, s.len()), false);
    }
    proof {
        if i < s.len() {
            lemma_byte_len_prefix_step(s@, i as int);
            lemma_byte_len_prefix_mono(s@, i + 1, n);
        }
        assert(byte_len(s@) > max);
        if i < s.len() {
            assert(ceil_chars(s@.subrange(i as int, n), rem) == 0);
        } else {
            assert(s@.subrange(i as int, n) =~= Seq::<char>::empty());
        }
    }
    (slice_chars(s, 0, i), true)
}

/// Builds the snippet of a hit (see `snippet`).
pub fn make_snippet(content: &str, max_chars: usize) -> (r: String)
    ensures
        r@ == snippet(content@, max_chars as nat),
{
    let s = chars_of(content);
    if s.len() <= max_chars {
        return string_of(&s);
    }
    let mut v = slice_chars(&s, 0, max_chars);
    v.push('…');
    assert(s@.subrange(0, max_chars as int) =~= s@.take(max_chars as int));
    string_of(&v)
}

} // verus!

verus! {

/// How many times `t` occurs in `ts`.
pub open spec fn occurrences(ts: Seq<Seq<char>>, t: Seq<char>) -> nat
    decreases ts.len(),
{
    if ts.len() == 0 {
        0
    } else {
        occurrences(ts.drop_last(), t) + if ts.last() == t {
            1nat
        } else {
            0nat
        }
    }
}

/// The distinct terms of `ts` in order of first occurrence.
pub open spec fn distinct_terms(ts: Seq<Seq<char>>) -> Seq<Seq<char>>
    decreases ts.len(),
{
    if ts.len() == 0 {
        Seq::empty()
    } else {
        let d = distinct_terms(ts.drop_last());
        if d.contains(ts.last()) {
            d
        } else {
            d.push(ts.last())
        }
    }
}

/// One term of a document with the number of times it occurs there.
#[derive(Debug, Clone)]
pub struct TermCount {
    pub term: String,
    pub count: usize,
}

proof fn lemma_occurrences_le(ts: Seq<Seq<char>>, t: Seq<char>)
    ensures
        occurrences(ts, t) <= ts.len(),
    decreases ts.len(),
{
    if ts.len() > 0 {
        lemma_occurrences_le(ts.drop_last(), t);
    }
}

/// The term frequencies of a document's tokens: each distinct token once, in
/// order of first occurrence, with the number of times it occurs.
pub fn term_counts(tokens: &Vec<String>) -> (r: Vec<TermCount>)
    ensures
        r@.len() == distinct_terms(strs(tokens@)).len(),
        forall|k: int|
            0 <= k < r@.len() ==> (#[trigger] r@[k]).term@ == distinct_terms(strs(tokens@))[k]
                && r@[k].count == occurrences(strs(tokens@), r@[k].term@),
{
    let ghost ts = strs(tokens@);
    let mut out: Vec<TermCount> = Vec::new();
    let mut i: usize = 0;
    while i < tokens.len()
        invariant
            i <= tokens.len(),
            ts == strs(tokens@),
            out@.len() == distinct_terms(ts.subrange(0, i as int)).len(),
            forall|k: int|
                0 <= k < out@.len() ==> (#[trigger] out@[k]).term@ == distinct_terms(
                    ts.subrange(0, i as int),
                )[k] && out@[k].count == occurrences(ts.subrange(0, i as int), out@[k].term@),
        decreases tokens.len() - i,
    {
        let ghost pre = ts.subrange(0, i as int);
        let ghost cur = ts.subrange(0, i + 1);
        assert(cur.drop_last() =~= pre);
        assert(cur.last() == tokens@[i as int]@);
        let t = chars_of(tokens[i].as_str());
        let mut j: usize = 0;
        let mut found: Option<usize> = None;
        while j < out.len() && found.is_none()
            invariant
                j <= out.len(),
                found is None ==> forall|k: int| 0 <= k < j ==> (#[trigger] out@[k]).term@ != t@,
                found matches Some(p) ==> p < out.len() && out@[p as int].term@ == t@,
            decreases out.len() - j,
        {
            let c = chars_of(out[j].term.as_str());
            if crate::text::eq_chars(&c, &t) {
                found = Some(j);
            }
            j = j + 1;
        }
        let ghost d = distinct_terms(pre);
        proof {
            lemma_occurrences_le(pre, t@);
            lemma_distinct_terms_unique(pre);
            assert forall|k: int| 0 <= k < d.len() implies occurrences(cur, #[trigger] d[k]) == occurrences(
                pre,
                d[k],
            ) + if d[k] == t@ { 1nat } else { 0nat } by {}
        }
        match found {
            Some(p) => {
                let n = out[p].count;
                let ghost old_out = out@;
                out.set(p, TermCount { term: tokens[i].clone(), count: n + 1 });
                proof {
                    assert(d.contains(t@)) by {
                        assert(d[p as int] == t@);
                    }
                    assert(distinct_terms(cur) == d);
                    assert forall|k: int| 0 <= k < out@.len() implies (#[trigger] out@[k]).term@ == distinct_terms(
                        cur,
                    )[k] && out@[k].count == occurrences(cur, out@[k].term@) by {
                        if k != p {
                            assert(out@[k] == old_out[k]);
                            assert(old_out[k].term@ == d[k]);
                            assert(occurrences(cur, d[k]) == occurrences(pre, d[k]) + if d[k] == t@ { 1nat } else { 0nat });
                        } else {
                            assert(old_out[k].term@ == d[k]);
                            assert(d[k] == t@);
                            assert(occurrences(cur, d[k]) == occurrences(pre, d[k]) + 1);
                            assert(out@[k].term@ == tokens@[i as int]@);
                        }
                    }
                }
            },
            None => {
                proof {
                    assert(!d.contains(t@)) by {
                        if d.contains(t@) {
                            let w = choose|w: int| 0 <= w < d.len() && d[w] == t@;
                            assert(out@[w].term@ == d[w]);
                        }
                    }
                    assert(distinct_terms(cur) == d.push(t@));
                    assert(occurrences(pre, t@) == 0) by {
                        lemma_absent_no_occurrences(pre, t@);
                    }
                }
                let ghost old_out = out@;
                out.push(TermCount { term: tokens[i].clone(), count: 1 });
                proof {
                    assert forall|k: int| 0 <= k < out@.len() implies (#[trigger] out@[k]).term@ == distinct_terms(
                        cur,
                    )[k] && out@[k].count == occurrences(cur, out@[k].term@) by {
                        if k < old_out.len() {
                            assert(out@[k] == old_out[k]);
                        }
                    }
                }
            },
        }
        i = i + 1;
    }
    assert(ts.subrange(0, tokens.len() as int) =~= ts);
    out
}

/// The distinct terms hold no term twice.
proof fn lemma_distinct_terms_unique(ts: Seq<Seq<char>>)
    ensures
        forall|i: int, j: int|
            0 <= i < j < distinct_terms(ts).len() ==> distinct_terms(ts)[i] != distinct_terms(ts)[j],
    decreases ts.len(),
{
    if ts.len() > 0 {
        let d = distinct_terms(ts.drop_last());
        lemma_distinct_terms_unique(ts.drop_last());
        if !d.contains(ts.last()) {
            let e = d.push(ts.last());
            assert forall|i: int, j: int| 0 <= i < j < e.len() implies e[i] != e[j] by {
                if j == d.len() {
                    assert(e[i] == d[i]);
                }
            }
        }
    }
}

/// A term that is not among the distinct terms does not occur.
proof fn lemma_absent_no_occurrences(ts: Seq<Seq<char>>, t: Seq<char>)
    requires
        !distinct_terms(ts).contains(t),
    ensures
        occurrences(ts, t) == 0,
    decreases ts.len(),
{
    if ts.len() > 0 {
        let d = distinct_terms(ts.drop_last());
        if d.contains(t) {
            let w = choose|w: int| 0 <= w < d.len() && d[w] == t;
            if !d.contains(ts.last()) {
                assert(d.push(ts.last())[w] == t);
            }
        }
        if ts.last() == t {
            if d.contains(t) {
            } else {
                assert(d.push(ts.last())[d.len() as int] == t);
            }
        }
        lemma_absent_no_occurrences(ts.drop_last(), t);
    }
}

/// Where the index holds the message `message_id` of conversation
/// `conversation_id`: the first entry with both ids, if any.
pub fn entry_position(keys: &Vec<(String, String)>, conversation_id: &str, message_id: &str) -> (r: Option<usize>)
    ensures
        r matches Some(i) ==> i < keys.len() && keys@[i as int].0@ == conversation_id@ && keys@[i as int].1@
            == message_id@ && forall|k: int|
            0 <= k < i ==> !(keys@[k].0@ == conversation_id@ && keys@[k].1@ == message_id@),
        r is None ==> forall|k: int|
            0 <= k < keys.len() ==> !(keys@[k].0@ == conversation_id@ && keys@[k].1@ == message_id@),
{
    let c = chars_of(conversation_id);
    let m = chars_of(message_id);
    let mut i: usize = 0;
    while i < keys.len()
        invariant
            i <= keys.len(),
            c@ == conversation_id@,
            m@ == message_id@,
            forall|k: int|
                0 <= k < i ==> !(keys@[k].0@ == conversation_id@ && keys@[k].1@ == message_id@),
        decreases keys.len() - i,
    {
        let kc = chars_of(keys[i].0.as_str());
        let km = chars_of(keys[i].1.as_str());
        if crate::text::eq_chars(&kc, &c) && crate::text::eq_chars(&km, &m) {
            return Some(i);
        }
        i = i + 1;
    }
    None
}

} // verus!

verus! {

/// Sum of the document lengths `ls`.
pub open spec fn total_of(ls: Seq<usize>) -> nat
    decreases ls.len(),
{
    if ls.len() == 0 {
        0
    } else {
        total_of(ls.drop_last()) + ls.last() as nat
    }
}

/// `ps` with the posting `p` appended to the list of term `t`, the table
/// first grown with empty lists to reach `t`.
pub open spec fn add_posting(ps: Seq<Seq<(usize, usize)>>, t: nat, p: (usize, usize)) -> Seq<Seq<(usize, usize)>> {
    let grown = if t < ps.len() {
        ps
    } else {
        ps + Seq::new((t + 1 - ps.len()) as nat, |i: int| Seq::<(usize, usize)>::empty())
    };
    grown.update(t as int, grown[t as int].push(p))
}

/// `ps` after document `d` is posted under each `(term, count)` of `terms`,
/// in order.
pub open spec fn with_document(ps: Seq<Seq<(usize, usize)>>, terms: Seq<(usize, usize)>, d: usize) -> Seq<
    Seq<(usize, usize)>,
>
    decreases terms.len(),
{
    if terms.len() == 0 {
        ps
    } else {
        add_posting(with_document(ps, terms.drop_last(), d), terms.last().0 as nat, (d, terms.last().1))
    }
}

/// The integer side of the memory index: which messages it holds (by
/// conversation and message id), how many tokens each has, their total, and
/// for each term (by the number the caller gives it) the documents holding
/// it with the term's count there. A term's document frequency is the length
/// of its list.
pub struct IndexBook {
    pub keys: Vec<(String, String)>,
    pub lens: Vec<usize>,
    pub postings: Vec<Vec<(usize, usize)>>,
    pub total_len: u64,
}

impl IndexBook {
    /// The posting lists as values.
    pub open spec fn posting_view(&self) -> Seq<Seq<(usize, usize)>> {
        self.postings@.map_values(|v: Vec<(usize, usize)>| v@)
    }

    /// One length per document, the total their sum, and every posting names
    /// a document the book holds.
    pub open spec fn wf(&self) -> bool {
        &&& self.lens@.len() == self.keys@.len()
        &&& self.total_len == total_of(self.lens@)
        &&& forall|t: int, j: int|
            0 <= t < self.postings@.len() && 0 <= j < self.postings@[t]@.len() ==> (#[trigger] self.postings@[t]@[j]).0
                < self.keys@.len()
    }

    /// An empty book.
    pub fn new() -> (b: IndexBook)
        ensures
            b.wf(),
            b.keys@.len() == 0,
            b.postings@.len() == 0,
            b.total_len == 0,
    {
        IndexBook { keys: Vec::new(), lens: Vec::new(), postings: Vec::new(), total_len: 0 }
    }

    /// Where the book holds message `message_id` of `conversation_id`.
    pub fn position(&self, conversation_id: &str, message_id: &str) -> (r: Option<usize>)
        ensures
            r matches Some(i) ==> i < self.keys.len() && self.keys@[i as int].0@ == conversation_id@
                && self.keys@[i as int].1@ == message_id@,
            r is None ==> forall|k: int|
                0 <= k < self.keys.len() ==> !(self.keys@[k].0@ == conversation_id@ && self.keys@[k].1@
                    == message_id@),
    {
        entry_position(&self.keys, conversation_id, message_id)
    }

    /// Number of documents holding term `t`.
    pub fn df(&self, t: usize) -> (n: usize)
        ensures
            n == if t < self.postings.len() {
                self.postings@[t as int]@.len()
            } else {
                0
            },
    {
        if t < self.postings.len() {
            self.postings[t].len()
        } else {
            0
        }
    }

    fn post(&mut self, t: usize, p: (usize, usize))
        requires
            t < usize::MAX,
            p.0 < old(self).keys.len(),
            old(self).wf(),
        ensures
            final(self).posting_view() == add_posting(old(self).posting_view(), t as nat, p),
            final(self).keys@ == old(self).keys@,
            final(self).lens@ == old(self).lens@,
            final(self).total_len == old(self).total_len,
            final(self).wf(),
    {
        let ghost ps = self.posting_view();
        let ghost n0 = self.postings@.len();
        while self.postings.len() <= t
            invariant
                t < usize::MAX,
                p.0 < self.keys.len(),
                self.keys@ == old(self).keys@,
                self.lens@ == old(self).lens@,
                self.total_len == old(self).total_len,
                self.wf(),
                n0 == ps.len(),
                n0 <= self.postings@.len() <= if t < n0 { n0 } else { t as nat + 1 },
                self.posting_view() == ps + Seq::new(
                    (self.postings@.len() - n0) as nat,
                    |i: int| Seq::<(usize, usize)>::empty(),
                ),
            decreases t + 1 - self.postings.len(),
        {
            let ghost before = self.posting_view();
            let ghost raw = self.postings@;
            let e: Vec<(usize, usize)> = Vec::new();
            assert(e@ =~= Seq::<(usize, usize)>::empty());
            self.postings.push(e);
            assert(self.postings@ == raw.push(e));
            assert(self.posting_view() =~= before.push(Seq::<(usize, usize)>::empty()));
            assert(self.posting_view() =~= ps + Seq::new(
                (self.postings@.len() - n0) as nat,
                |i: int| Seq::<(usize, usize)>::empty(),
            ));
        }
        let ghost grown = self.posting_view();
        assert(grown =~= if (t as nat) < ps.len() {
            ps
        } else {
            ps + Seq::new((t + 1 - ps.len()) as nat, |i: int| Seq::<(usize, usize)>::empty())
        });
        let mut list: Vec<(usize, usize)> = Vec::new();
        let mut j: usize = 0;
        while j < self.postings[t].len()
            invariant
                t < self.postings@.len(),
                j <= self.postings@[t as int]@.len(),
                list@ == self.postings@[t as int]@.subrange(0, j as int),
            decreases self.postings@[t as int]@.len() - j,
        {
            list.push(self.postings[t][j]);
            j = j + 1;
        }
        assert(list@ =~= grown[t as int]);
        list.push(p);
        self.postings.set(t, list);
        assert(self.posting_view() =~= grown.update(t as int, grown[t as int].push(p)));
        assert forall|u: int, j: int|
            0 <= u < self.postings@.len() && 0 <= j < self.postings@[u]@.len() implies (#[trigger] self.postings@[u]@[j]).0
                < self.keys@.len() by {
            if u == t {
                if j < grown[u].len() {
                    assert(self.postings@[u]@[j] == grown[u][j]);
                }
            } else {
                assert(self.posting_view()[u] == grown[u]);
            }
        }
    }

    /// Adds message `message_id` of `conversation_id` with `len` tokens,
    /// posted under each `(term, count)` of `terms`, unless the book holds it
    /// already; says whether it was added.
    pub fn add(&mut self, conversation_id: String, message_id: String, terms: &Vec<(usize, usize)>, len: usize) -> (added: bool)
        requires
            old(self).wf(),
            old(self).total_len + len <= u64::MAX,
            old(self).keys.len() < usize::MAX,
            forall|k: int| 0 <= k < terms.len() ==> (#[trigger] terms@[k]).0 < usize::MAX,
        ensures
            final(self).wf(),
            added == forall|k: int|
                0 <= k < old(self).keys.len() ==> !(old(self).keys@[k].0@ == conversation_id@
                    && old(self).keys@[k].1@ == message_id@),
            !added ==> final(self).keys@ == old(self).keys@ && final(self).lens@ == old(self).lens@
                && final(self).posting_view() == old(self).posting_view() && final(self).total_len
                == old(self).total_len,
            added ==> {
                &&& final(self).keys@ == old(self).keys@.push((conversation_id, message_id))
                &&& final(self).lens@ == old(self).lens@.push(len)
                &&& final(self).total_len == old(self).total_len + len
                &&& final(self).posting_view() == with_document(
                    old(self).posting_view(),
                    terms@,
                    old(self).keys.len(),
                )
            },
    {
        if self.position(conversation_id.as_str(), message_id.as_str()).is_some() {
            return false;
        }
        let d = self.keys.len();
        let ghost ps0 = self.posting_view();
        let ghost lens0 = self.lens@;
        self.keys.push((conversation_id, message_id));
        self.lens.push(len);
        self.total_len = self.total_len + len as u64;
        assert(self.lens@.drop_last() =~= lens0);
        assert(self.wf()) by {
            assert forall|t: int, j: int|
                0 <= t < self.postings@.len() && 0 <= j < self.postings@[t]@.len() implies (#[trigger] self.postings@[t]@[j]).0
                    < self.keys@.len() by {}
        }
        let mut i: usize = 0;
        while i < terms.len()
            invariant
                i <= terms.len(),
                d + 1 == self.keys.len(),
                self.wf(),
                forall|k: int| 0 <= k < terms.len() ==> (#[trigger] terms@[k]).0 < usize::MAX,
                self.posting_view() == with_document(ps0, terms@.subrange(0, i as int), d),
                self.keys@ == old(self).keys@.push((conversation_id, message_id)),
                self.lens@ == old(self).lens@.push(len),
                self.total_len == old(self).total_len + len,
            decreases terms.len() - i,
        {
            let (t, c) = terms[i];
            self.post(t, (d, c));
            let ghost cur = terms@.subrange(0, i + 1);
            assert(cur.drop_last() =~= terms@.subrange(0, i as int));
            assert(cur.last() == terms@[i as int]);
            i = i + 1;
        }
        assert(terms@.subrange(0, terms.len() as int) =~= terms@);
        true
    }
}

} // verus!
