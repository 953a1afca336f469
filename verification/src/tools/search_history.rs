//! Keyword search over the current conversation's history.

use vstd::prelude::*;
use crate::memory::{make_snippet, memory_tokens, snippet, tokenize, SNIPPET_MAX_CHARS};
use crate::models::{message_views, Message, MessageModel, Role};
use crate::order::{
    as_ints, at_most, in_order, lemma_order_range_pub, lemma_stable_order_permutation,
    lemma_stable_order_sorted, sorted_positions, stable_order,
};
use crate::text::{
    chars_of, dec, dec_chars, extend_chars, find_chars, lower, string_of, strs, to_lowercase_string,
};
use crate::tools::search_file::contains_text;

verus! {

/// Arguments of a history search.
pub struct SearchHistoryArgs {
    pub query: String,
    /// Most results (5 by default; 0 also means 5).
    pub limit: usize,
}

/// Default number of results.
pub fn default_limit() -> (r: usize)
    ensures
        r == 5,
{
    5
}

/// A refused or failed call, by its message.
#[derive(Debug)]
pub struct SearchHistoryError(pub String);

impl SearchHistoryError {
    /// The text the error shows.
    pub fn message(&self) -> (r: String)
        ensures
            r@ == "search history error: "@ + self.0@,
    {
        crate::text::str_cat("search history error: ", self.0.as_str())
    }
}

/// `str::contains` on character sequences.
fn has_text(h: &[char], k: &[char]) -> (b: bool)
    ensures
        b == contains_text(h@, k@),
{
    find_chars(h, k, 0).is_some()
}

/// How many of the keywords occur in `lowered`; each keyword counts once,
/// however often it occurs.
pub open spec fn keyword_hits(lowered: Seq<char>, kws: Seq<Seq<char>>) -> nat
    decreases kws.len(),
{
    if kws.len() == 0 {
        0
    } else {
        keyword_hits(lowered, kws.drop_last()) + if contains_text(lowered, kws.last()) {
            1nat
        } else {
            0nat
        }
    }
}

/// A message's relevance: the keywords found in its lowercased content (0
/// for an empty message).
pub open spec fn message_score(content: Seq<char>, kws: Seq<Seq<char>>) -> nat {
    if content.len() == 0 {
        0
    } else {
        keyword_hits(lower(content), kws)
    }
}

proof fn lemma_hits_le(lowered: Seq<char>, kws: Seq<Seq<char>>)
    ensures
        keyword_hits(lowered, kws) <= kws.len(),
    decreases kws.len(),
{
    if kws.len() > 0 {
        lemma_hits_le(lowered, kws.drop_last());
    }
}

/// Counts the keywords that occur in the message (compared in lower case).
pub fn score_message(msg: &Message, keywords: &Vec<String>) -> (r: usize)
    ensures
        r == message_score(msg.content@, strs(keywords@)),
{
    if msg.content.as_str().is_empty() {
        return 0;
    }
    let lowered = to_lowercase_string(msg.content.as_str());
    let h = chars_of(lowered.as_str());
    let ghost kv = strs(keywords@);
    let mut n: usize = 0;
    let mut i: usize = 0;
    while i < keywords.len()
        invariant
            i <= keywords.len(),
            kv == strs(keywords@),
            h@ == lower(msg.content@),
            n == keyword_hits(h@, kv.subrange(0, i as int)),
            n <= i,
        decreases keywords.len() - i,
    {
        let k = chars_of(keywords[i].as_str());
        let found = has_text(&h, &k);
        assert(kv.subrange(0, i + 1).drop_last() =~= kv.subrange(0, i as int));
        if found {
            n = n + 1;
        }
        i = i + 1;
    }
    assert(kv.subrange(0, i as int) =~= kv);
    n
}

/// The scores of the messages, in order.
pub open spec fn history_scores(history: Seq<MessageModel>, kws: Seq<Seq<char>>) -> Seq<u64> {
    Seq::new(history.len(), |i: int| message_score(history[i].content, kws) as u64)
}

/// The messages shown for a search: those with a positive score, best first
/// (equal scores in history order), at most `limit` of them.
pub open spec fn history_picks(scores: Seq<u64>, limit: nat) -> Seq<int> {
    at_most(stable_order(scores, scores.len(), true).filter(|i: int| scores[i] > 0), limit)
}

/// The number of results asked for: 5 when the limit is 0.
pub open spec fn effective_limit(limit: usize) -> nat {
    if limit == 0 {
        5
    } else {
        limit as nat
    }
}

/// A speaker's name in a result line.
pub open spec fn role_name(r: Role) -> Seq<char> {
    match r {
        Role::User => "用户"@,
        Role::Assistant => "助手"@,
        Role::System => "系统"@,
    }
}

/// The line of the `i`-th result (counted from 0).
pub open spec fn history_line(i: nat, m: MessageModel) -> Seq<char> {
    dec(i + 1) + ". ["@ + role_name(m.role) + "] "@ + snippet(m.content, SNIPPET_MAX_CHARS as nat)
        + seq!['\n']
}

/// The lines of the first `n` picks.
pub open spec fn history_lines(history: Seq<MessageModel>, picks: Seq<int>, n: nat) -> Seq<char>
    decreases n,
{
    if n == 0 {
        Seq::empty()
    } else {
        history_lines(history, picks, (n - 1) as nat) + history_line(
            (n - 1) as nat,
            history[picks[n - 1]],
        )
    }
}

/// The tool's reply to a search for `query` with at most `limit` results.
pub open spec fn history_report(query: Seq<char>, history: Seq<MessageModel>, limit: usize) -> Seq<char> {
    let kws = memory_tokens(query);
    let picks = history_picks(history_scores(history, kws), effective_limit(limit));
    if kws.len() == 0 {
        "无有效关键词，未检索到历史。"@
    } else if picks.len() == 0 {
        "未找到与「"@ + query + "」相关的历史消息。"@
    } else {
        "找到 "@ + dec(picks.len()) + " 条相关历史消息：\n"@ + history_lines(history, picks, picks.len())
    }
}

fn role_label(r: Role) -> (s: &'static str)
    ensures
        s@ == role_name(r),
{
    match r {
        Role::User => "用户",
        Role::Assistant => "助手",
        Role::System => "系统",
    }
}

fn pick_positive(order: &Vec<usize>, keys: &Vec<u64>, limit: usize) -> (r: Vec<usize>)
    requires
        forall|j: int| 0 <= j < order@.len() ==> #[trigger] order@[j] < keys@.len(),
    ensures
        as_ints(r@) == at_most(as_ints(order@).filter(|i: int| keys@[i] > 0), limit as nat),
        forall|j: int| 0 <= j < r@.len() ==> #[trigger] r@[j] < keys@.len(),
{
    let ghost ks = keys@;
    let ghost pred = |i: int| ks[i] > 0;
    let ghost ov = as_ints(order@);
    let mut out: Vec<usize> = Vec::new();
    let mut k: usize = 0;
    while k < order.len()
        invariant
            k <= order.len(),
            ks == keys@,
            pred == (|i: int| ks[i] > 0),
            ov == as_ints(order@),
            forall|j: int| 0 <= j < order@.len() ==> #[trigger] order@[j] < keys@.len(),
            forall|j: int| 0 <= j < out@.len() ==> #[trigger] out@[j] < keys@.len(),
            as_ints(out@) == at_most(ov.take(k as int).filter(pred), limit as nat),
        decreases order.len() - k,
    {
        let p = order[k];
        proof {
            reveal(Seq::filter);
            assert(ov.take(k + 1).drop_last() =~= ov.take(k as int));
            assert(ov.take(k + 1).last() == p as int);
        }
        let ghost f0 = ov.take(k as int).filter(pred);
        let ghost f1 = ov.take(k + 1).filter(pred);
        if keys[p] > 0 && out.len() < limit {
            let ghost before = out@;
            out.push(p);
            assert(as_ints(out@) =~= as_ints(before).push(p as int));
            assert(f1 == f0.push(p as int));
            assert(f0.len() < limit);
            assert(f1.len() <= limit);
        } else if keys[p] > 0 {
            assert(f1 == f0.push(p as int));
            assert(f0.len() >= limit);
            assert(f1.take(limit as int) =~= f0.take(limit as int));
        } else {
            assert(f1 == f0);
        }
        k = k + 1;
    }
    assert(ov.take(k as int) =~= ov);
    out
}

fn push_text(out: &mut Vec<char>, s: &str)
    ensures
        final(out)@ == old(out)@ + s@,
{
    let c = chars_of(s);
    extend_chars(out, &c);
}

fn push_history_line(out: &mut Vec<char>, i: usize, m: &Message)
    requires
        i < usize::MAX,
    ensures
        final(out)@ == old(out)@ + history_line(i as nat, m@),
{
    let ghost before = out@;
    let d = dec_chars((i + 1) as u64);
    extend_chars(out, &d);
    push_text(out, ". [");
    push_text(out, role_label(m.role));
    push_text(out, "] ");
    let sn = make_snippet(m.content.as_str(), SNIPPET_MAX_CHARS);
    push_text(out, sn.as_str());
    out.push('\n');
    assert(out@ =~= before + history_line(i as nat, m@));
}

/// Searches the history for the words of `args.query` (see `history_report`).
pub fn search_history(args: &SearchHistoryArgs, history: &Vec<Message>) -> (r: String)
    ensures
        r@ == history_report(args.query@, message_views(history@), args.limit),
{
    let keywords = tokenize(args.query.as_str());
    let ghost hv = message_views(history@);
    let ghost kv = memory_tokens(args.query@);
    if keywords.len() == 0 {
        return "无有效关键词，未检索到历史。".to_string();
    }
    let limit: usize = if args.limit == 0 { 5 } else { args.limit };
    let mut keys: Vec<u64> = Vec::new();
    let mut i: usize = 0;
    while i < history.len()
        invariant
            i <= history.len(),
            hv == message_views(history@),
            strs(keywords@) == kv,
            keys@ == history_scores(hv, kv).take(i as int),
        decreases history.len() - i,
    {
        let s = score_message(&history[i], &keywords);
        keys.push(s as u64);
        i = i + 1;
        assert(keys@ =~= history_scores(hv, kv).take(i as int));
    }
    assert(keys@ =~= history_scores(hv, kv));
    let order = sorted_positions(&keys, true);
    let picks = pick_positive(&order, &keys, limit);
    if picks.len() == 0 {
        let mut out: Vec<char> = Vec::new();
        push_text(&mut out, "未找到与「");
        push_text(&mut out, args.query.as_str());
        push_text(&mut out, "」相关的历史消息。");
        return string_of(&out);
    }
    let ghost pv = as_ints(picks@);
    let mut out: Vec<char> = Vec::new();
    push_text(&mut out, "找到 ");
    let d = dec_chars(picks.len() as u64);
    extend_chars(&mut out, &d);
    push_text(&mut out, " 条相关历史消息：\n");
    let ghost head = out@;
    let mut j: usize = 0;
    while j < picks.len()
        invariant
            j <= picks.len(),
            hv == message_views(history@),
            pv == as_ints(picks@),
            forall|t: int| 0 <= t < picks@.len() ==> #[trigger] picks@[t] < history@.len(),
            out@ == head + history_lines(hv, pv, j as nat),
        decreases picks.len() - j,
    {
        let p = picks[j];
        assert(pv[j as int] == p as int);
        push_history_line(&mut out, j, &history[p]);
        j = j + 1;
    }
    string_of(&out)
}

/// Keys never increase along `s`.
pub open spec fn descending(s: Seq<int>, keys: Seq<u64>) -> bool {
    forall|a: int, b: int| 0 <= a < b < s.len() ==> keys[#[trigger] s[a]] >= keys[#[trigger] s[b]]
}

proof fn lemma_filter_descending(s: Seq<int>, keys: Seq<u64>, pred: spec_fn(int) -> bool)
    requires
        descending(s, keys),
    ensures
        descending(s.filter(pred), keys),
        forall|x: int| #[trigger] s.filter(pred).contains(x) ==> s.contains(x),
    decreases s.len(),
{
    reveal(Seq::filter);
    if s.len() > 0 {
        let d = s.drop_last();
        assert(descending(d, keys)) by {
            assert forall|a: int, b: int| 0 <= a < b < d.len() implies keys[#[trigger] d[a]] >= keys[#[trigger] d[b]] by {
                assert(d[a] == s[a] && d[b] == s[b]);
            }
        }
        lemma_filter_descending(d, keys, pred);
        let f = d.filter(pred);
        assert forall|x: int| #[trigger] s.filter(pred).contains(x) implies s.contains(x) by {
            if f.contains(x) {
                assert(d.contains(x));
                let i = choose|i: int| 0 <= i < d.len() && d[i] == x;
                assert(s[i] == x);
            } else {
                assert(x == s.last());
                assert(s[s.len() - 1] == x);
            }
        }
        if pred(s.last()) {
            let g = f.push(s.last());
            assert forall|a: int, b: int| 0 <= a < b < g.len() implies keys[#[trigger] g[a]] >= keys[#[trigger] g[b]] by {
                if b < f.len() {
                    assert(g[a] == f[a] && g[b] == f[b]);
                } else {
                    assert(g[a] == f[a]);
                    assert(f.contains(f[a]));
                    assert(d.contains(f[a]));
                    let i = choose|i: int| 0 <= i < d.len() && d[i] == f[a];
                    assert(s[i] == d[i]);
                    assert(s[s.len() - 1] == s.last());
                }
            }
        }
    }
}

proof fn lemma_filter_no_dup(s: Seq<int>, pred: spec_fn(int) -> bool)
    requires
        s.no_duplicates(),
    ensures
        s.filter(pred).no_duplicates(),
        forall|x: int| #[trigger] s.filter(pred).contains(x) ==> s.drop_last().contains(x) || (s.len()
            > 0 && x == s.last()),
    decreases s.len(),
{
    reveal(Seq::filter);
    if s.len() > 0 {
        let d = s.drop_last();
        assert(d.no_duplicates()) by {
            assert forall|a: int, b: int| 0 <= a < d.len() && 0 <= b < d.len() && a != b implies d[a] != d[b] by {
                assert(d[a] == s[a] && d[b] == s[b]);
            }
        }
        lemma_filter_no_dup(d, pred);
        lemma_filter_descending_contains(d, pred);
        let f = d.filter(pred);
        if pred(s.last()) {
            let g = f.push(s.last());
            assert forall|a: int, b: int| 0 <= a < g.len() && 0 <= b < g.len() && a != b implies g[a] != g[b] by {
                if a < f.len() && b < f.len() {
                    assert(g[a] == f[a] && g[b] == f[b]);
                } else if a < f.len() {
                    assert(g[a] == f[a]);
                    assert(f.contains(f[a]));
                    let i = choose|i: int| 0 <= i < d.len() && d[i] == f[a];
                    assert(s[i] == d[i] && s[s.len() - 1] == s.last());
                } else {
                    assert(g[b] == f[b]);
                    assert(f.contains(f[b]));
                    let i = choose|i: int| 0 <= i < d.len() && d[i] == f[b];
                    assert(s[i] == d[i] && s[s.len() - 1] == s.last());
                }
            }
        }
        assert forall|x: int| #[trigger] s.filter(pred).contains(x) implies s.drop_last().contains(x) || (
        s.len() > 0 && x == s.last()) by {
            if f.contains(x) {
            } else {
                assert(x == s.last());
            }
        }
    }
}

proof fn lemma_filter_descending_contains(s: Seq<int>, pred: spec_fn(int) -> bool)
    ensures
        forall|x: int| #[trigger] s.filter(pred).contains(x) ==> s.contains(x),
    decreases s.len(),
{
    reveal(Seq::filter);
    if s.len() > 0 {
        let d = s.drop_last();
        lemma_filter_descending_contains(d, pred);
        let f = d.filter(pred);
        assert forall|x: int| #[trigger] s.filter(pred).contains(x) implies s.contains(x) by {
            if f.contains(x) {
                assert(d.contains(x));
                let i = choose|i: int| 0 <= i < d.len() && d[i] == x;
                assert(s[i] == x);
            } else {
                assert(x == s.last());
                assert(s[s.len() - 1] == x);
            }
        }
    }
}

/// The results of a history search are the best-scored messages: each has a
/// positive score, scores never increase down the list, every result is a
/// message of the history and none comes twice; there are at most `limit`,
/// and when there are fewer, every message with a positive score is among
/// them.
pub proof fn lemma_history_picks_ranked(scores: Seq<u64>, limit: nat)
    ensures
        ({
            let p = history_picks(scores, limit);
            &&& p.len() <= limit
            &&& forall|j: int| 0 <= j < p.len() ==> 0 <= #[trigger] p[j] < scores.len() && scores[p[j]] > 0
            &&& descending(p, scores)
            &&& p.no_duplicates()
            &&& p.len() < limit ==> forall|i: int| 0 <= i < scores.len() && scores[i] > 0 ==> #[trigger] p.contains(i)
        }),
{
    broadcast use vstd::seq_lib::group_to_multiset_ensures, vstd::seq_lib::group_filter_ensures;

    let n = scores.len();
    let order = stable_order(scores, n, true);
    let pred = |i: int| scores[i] > 0;
    lemma_order_range_pub(scores, n, true);
    lemma_stable_order_sorted(scores, n, true);
    lemma_stable_order_permutation(scores, n, true);
    let all = Seq::new(n, |j: int| j);
    assert(descending(order, scores)) by {
        assert forall|a: int, b: int| 0 <= a < b < order.len() implies scores[#[trigger] order[a]] >= scores[#[trigger] order[b]] by {
            assert(in_order(scores[order[a]], scores[order[b]], true));
        }
    }
    lemma_filter_descending(order, scores, pred);
    let f = order.filter(pred);
    let p = history_picks(scores, limit);
    assert(all.no_duplicates());
    all.lemma_multiset_has_no_duplicates();
    assert(order.to_multiset() == all.to_multiset());
    order.lemma_multiset_has_no_duplicates_conv();
    lemma_filter_no_dup(order, pred);
    lemma_filter_descending_contains(order, pred);
    assert forall|j: int| 0 <= j < p.len() implies 0 <= #[trigger] p[j] < scores.len() && scores[p[j]] > 0 by {
        assert(p[j] == f[j]);
        assert(pred(f[j]));
        assert(f.contains(f[j]));
        assert(order.contains(f[j]));
    }
    assert(descending(p, scores)) by {
        assert forall|a: int, b: int| 0 <= a < b < p.len() implies scores[#[trigger] p[a]] >= scores[#[trigger] p[b]] by {
            assert(p[a] == f[a] && p[b] == f[b]);
        }
    }
    assert(p.no_duplicates()) by {
        assert forall|a: int, b: int| 0 <= a < p.len() && 0 <= b < p.len() && a != b implies p[a] != p[b] by {
            assert(p[a] == f[a] && p[b] == f[b]);
        }
    }
    if p.len() < limit {
        assert(p == f);
        assert forall|i: int| 0 <= i < scores.len() && scores[i] > 0 implies #[trigger] p.contains(i) by {
            assert(all[i] == i);
            assert(all.contains(i));
            assert(all.to_multiset().count(i) > 0);
            assert(order.to_multiset().count(i) > 0);
            assert(order.contains(i));
            let k = choose|k: int| 0 <= k < order.len() && order[k] == i;
            assert(pred(order[k]));
        }
    }
}

} // verus!
