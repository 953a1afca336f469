//! Pinned memories: facts the user asked to keep, shown in every prompt.
//! The collection and its operations; persisting it is the application's part.

use vstd::prelude::*;
use crate::error::CoreError;
use crate::ids::{new_uuid, uuid_shaped};
use crate::order::{sorted_positions, stable_order};
use crate::text::{chars_of, dec, dec_chars, extend_chars, str_cat, string_of};

verus! {

/// Where a pinned memory came from.
#[derive(Debug, Clone, Copy, PartialEq, Eq, Structural)]
pub enum PinnedMemorySource {
    /// Added by hand in the panel.
    Manual,
    /// The user asked in a conversation.
    UserRequest,
    /// Suggested by the assistant and confirmed.
    Assistant,
}

/// One pinned memory.
#[derive(Debug, Clone)]
pub struct PinnedMemory {
    pub id: String,
    pub content: String,
    /// A label such as `preference`, `fact` or `instruction`.
    pub category: Option<String>,
    pub created_at: u64,
    pub source: PinnedMemorySource,
    /// The conversation it came from, if any.
    pub source_conversation_id: Option<String>,
}

fn dup_text(o: &Option<String>) -> (r: Option<String>)
    ensures
        r == *o,
{
    match o {
        Some(s) => Some(s.clone()),
        None => None,
    }
}

impl PinnedMemory {
    /// A memory without an id (the collection gives it one) or a source conversation.
    pub fn new(content: &str, category: Option<String>, source: PinnedMemorySource, created_at: u64) -> (m: PinnedMemory)
        ensures
            m.id@.len() == 0,
            m.content@ == content@,
            m.category == category,
            m.created_at == created_at,
            m.source == source,
            m.source_conversation_id is None,
    {
        PinnedMemory {
            id: String::new(),
            content: content.to_string(),
            category,
            created_at,
            source,
            source_conversation_id: None,
        }
    }

    /// A copy of `self`.
    pub fn duplicate(&self) -> (r: PinnedMemory)
        ensures
            r == *self,
    {
        PinnedMemory {
            id: self.id.clone(),
            content: self.content.clone(),
            category: dup_text(&self.category),
            created_at: self.created_at,
            source: self.source,
            source_conversation_id: dup_text(&self.source_conversation_id),
        }
    }
}

/// The pinned memories, in the order they were added.
pub struct PinnedMemories {
    pub memories: Vec<PinnedMemory>,
}

/// Position of the first memory with id `id`.
pub open spec fn first_with_id(ms: Seq<PinnedMemory>, id: Seq<char>, from: int) -> Option<int>
    decreases ms.len() - from,
{
    if from < 0 || from >= ms.len() {
        None
    } else if ms[from].id@ == id {
        Some(from)
    } else {
        first_with_id(ms, id, from + 1)
    }
}

/// The creation times, as sort keys.
pub open spec fn created_keys(ms: Seq<PinnedMemory>) -> Seq<u64> {
    ms.map_values(|m: PinnedMemory| m.created_at)
}

/// The memories stably ordered by creation time, newest or oldest first.
pub open spec fn by_time(ms: Seq<PinnedMemory>, newest_first: bool) -> Seq<PinnedMemory> {
    let order = stable_order(created_keys(ms), ms.len(), newest_first);
    Seq::new(ms.len(), |j: int| ms[order[j]])
}

/// `ms` after adding `m`: unchanged when a memory with its id is there,
/// else with `m` appended.
pub open spec fn with_added(ms: Seq<PinnedMemory>, m: PinnedMemory) -> Seq<PinnedMemory> {
    if first_with_id(ms, m.id@, 0) is Some {
        ms
    } else {
        ms.push(m)
    }
}

/// `ms` without the memories whose id is `id`.
pub open spec fn without_id(ms: Seq<PinnedMemory>, id: Seq<char>) -> Seq<PinnedMemory>
    decreases ms.len(),
{
    if ms.len() == 0 {
        Seq::empty()
    } else {
        let rest = without_id(ms.drop_last(), id);
        if ms.last().id@ == id {
            rest
        } else {
            rest.push(ms.last())
        }
    }
}

/// The context text: empty without memories, else a header and one
/// numbered line per memory, oldest first, with its category when it has a
/// non-empty one.
pub open spec fn context_text(ms: Seq<PinnedMemory>) -> Seq<char> {
    if ms.len() == 0 {
        Seq::empty()
    } else {
        "[永久记忆]（用户要求永久记住的内容，请始终遵守/参考）\n"@ + context_lines(by_time(ms, false), ms.len())
    }
}

/// The numbered lines of the first `n` memories of `sorted`.
pub open spec fn context_lines(sorted: Seq<PinnedMemory>, n: nat) -> Seq<char>
    decreases n,
{
    if n == 0 {
        Seq::empty()
    } else {
        context_lines(sorted, (n - 1) as nat) + context_line((n - 1) as nat, sorted[n - 1])
    }
}

pub open spec fn context_line(i: nat, m: PinnedMemory) -> Seq<char> {
    match m.category {
        Some(c) => if c@.len() > 0 {
            dec(i + 1) + ". ["@ + c@ + "] "@ + m.content@ + seq!['\n']
        } else {
            dec(i + 1) + ". "@ + m.content@ + seq!['\n']
        },
        None => dec(i + 1) + ". "@ + m.content@ + seq!['\n'],
    }
}

fn created_key_vec(ms: &Vec<PinnedMemory>) -> (keys: Vec<u64>)
    ensures
        keys@ == created_keys(ms@),
{
    let mut keys: Vec<u64> = Vec::new();
    let mut i: usize = 0;
    while i < ms.len()
        invariant
            i <= ms.len(),
            keys@ == created_keys(ms@).subrange(0, i as int),
        decreases ms.len() - i,
    {
        keys.push(ms[i].created_at);
        i = i + 1;
        assert(keys@ =~= created_keys(ms@).subrange(0, i as int));
    }
    assert(keys@ =~= created_keys(ms@));
    keys
}

fn ordered(ms: &Vec<PinnedMemory>, newest_first: bool) -> (r: Vec<PinnedMemory>)
    ensures
        r@ == by_time(ms@, newest_first),
{
    let keys = created_key_vec(ms);
    let order = sorted_positions(&keys, newest_first);
    let ghost ord = stable_order(created_keys(ms@), ms@.len(), newest_first);
    let mut out: Vec<PinnedMemory> = Vec::new();
    let mut j: usize = 0;
    while j < order.len()
        invariant
            j <= order.len(),
            order@.len() == ms@.len(),
            forall|k: int| 0 <= k < order@.len() ==> #[trigger] order@[k] < ms@.len(),
            ord == crate::order::as_ints(order@),
            out@.len() == j,
            forall|k: int| 0 <= k < j ==> #[trigger] out@[k] == ms@[ord[k]],
        decreases order.len() - j,
    {
        let p = order[j];
        assert(ord[j as int] == p as int);
        out.push(ms[p].duplicate());
        j = j + 1;
    }
    assert(out@ =~= by_time(ms@, newest_first));
    out
}

fn position_of(ms: &Vec<PinnedMemory>, id: &str) -> (r: Option<usize>)
    ensures
        r matches Some(i) ==> i < ms.len() && first_with_id(ms@, id@, 0) == Some(i as int),
        r is None ==> first_with_id(ms@, id@, 0) is None,
{
    let target = chars_of(id);
    let mut i: usize = 0;
    while i < ms.len()
        invariant
            i <= ms.len(),
            target@ == id@,
            first_with_id(ms@, id@, 0) == first_with_id(ms@, id@, i as int),
        decreases ms.len() - i,
    {
        let c = chars_of(ms[i].id.as_str());
        if crate::text::eq_chars(&c, &target) {
            return Some(i);
        }
        i = i + 1;
    }
    None
}

impl PinnedMemories {
    /// No memories.
    pub fn new() -> (s: PinnedMemories)
        ensures
            s.memories@.len() == 0,
    {
        PinnedMemories { memories: Vec::new() }
    }

    /// All memories, newest first (equal times keep their order).
    pub fn list(&self) -> (r: Vec<PinnedMemory>)
        ensures
            r@ == by_time(self.memories@, true),
    {
        ordered(&self.memories, true)
    }

    /// Adds a memory and returns its id; an empty id is replaced by a fresh
    /// random one. A memory whose id is already there is not added again.
    pub fn add(&mut self, memory: PinnedMemory) -> (id: String)
        ensures
            memory.id@.len() > 0 ==> id@ == memory.id@,
            memory.id@.len() == 0 ==> uuid_shaped(id@),
            final(self).memories@ == with_added(old(self).memories@, PinnedMemory { id: id, ..memory }),
    {
        let mut memory = memory;
        if memory.id.as_str().is_empty() {
            memory.id = new_uuid();
        }
        let id = memory.id.clone();
        match position_of(&self.memories, id.as_str()) {
            Some(_) => {},
            None => {
                self.memories.push(memory);
            },
        }
        id
    }

    /// Changes the content and/or the category of the first memory with id
    /// `id` (`Some(None)` clears the category); an unknown id is an error.
    pub fn update(&mut self, id: &str, content: Option<String>, category: Option<Option<String>>) -> (r: Result<(), CoreError>)
        ensures
            r is Ok <==> first_with_id(old(self).memories@, id@, 0) is Some,
            r matches Err(e) ==> e matches CoreError::NotFound(msg) && msg@ == "pinned memory "@ + id@ + " not found"@,
            r is Err ==> final(self).memories@ == old(self).memories@,
            r is Ok ==> {
                let i = first_with_id(old(self).memories@, id@, 0)->0;
                let m = old(self).memories@[i];
                final(self).memories@ == old(self).memories@.update(i, PinnedMemory {
                    content: match content { Some(c) => c, None => m.content },
                    category: match category { Some(c) => c, None => m.category },
                    ..m
                })
            },
    {
        match position_of(&self.memories, id) {
            None => {
                let msg = crate::text::str_cat3("pinned memory ", id, " not found");
                Err(CoreError::NotFound(msg))
            },
            Some(i) => {
                let mut m = self.memories[i].duplicate();
                match content {
                    Some(c) => {
                        m.content = c;
                    },
                    None => {},
                }
                match category {
                    Some(c) => {
                        m.category = c;
                    },
                    None => {},
                }
                self.memories.set(i, m);
                Ok(())
            },
        }
    }

    /// Removes every memory with id `id`; says whether any was there.
    pub fn delete(&mut self, id: &str) -> (changed: bool)
        ensures
            final(self).memories@ == without_id(old(self).memories@, id@),
            changed == (final(self).memories@.len() != old(self).memories@.len()),
    {
        let ghost ms = self.memories@;
        let target = chars_of(id);
        let mut kept: Vec<PinnedMemory> = Vec::new();
        let mut i: usize = 0;
        while i < self.memories.len()
            invariant
                i <= self.memories.len(),
                ms == self.memories@,
                target@ == id@,
                kept@ == without_id(ms.subrange(0, i as int), id@),
            decreases self.memories.len() - i,
        {
            assert(ms.subrange(0, i + 1).drop_last() =~= ms.subrange(0, i as int));
            assert(ms.subrange(0, i + 1).last() == ms[i as int]);
            let c = chars_of(self.memories[i].id.as_str());
            if !crate::text::eq_chars(&c, &target) {
                kept.push(self.memories[i].duplicate());
            }
            i = i + 1;
        }
        assert(ms.subrange(0, ms.len() as int) =~= ms);
        let changed = kept.len() != self.memories.len();
        self.memories = kept;
        changed
    }

    /// Removes all memories.
    pub fn clear(&mut self)
        ensures
            final(self).memories@.len() == 0,
    {
        self.memories.clear();
    }

    /// The first memory with id `id`.
    pub fn get(&self, id: &str) -> (r: Option<PinnedMemory>)
        ensures
            r == match first_with_id(self.memories@, id@, 0) {
                Some(i) => Some(self.memories@[i]),
                None => None::<PinnedMemory>,
            },
    {
        match position_of(&self.memories, id) {
            Some(i) => Some(self.memories[i].duplicate()),
            None => None,
        }
    }

    /// The text injected into every prompt (see `context_text`).
    pub fn format_for_context(&self) -> (r: String)
        ensures
            r@ == context_text(self.memories@),
    {
        if self.memories.len() == 0 {
            return String::new();
        }
        let sorted = ordered(&self.memories, false);
        let mut out = chars_of("[永久记忆]（用户要求永久记住的内容，请始终遵守/参考）\n");
        let ghost head = out@;
        let mut i: usize = 0;
        while i < sorted.len()
            invariant
                i <= sorted.len(),
                sorted@.len() == self.memories@.len(),
                out@ == head + context_lines(sorted@, i as nat),
            decreases sorted.len() - i,
        {
            let m = &sorted[i];
            let ghost before = out@;
            let num = dec_chars((i + 1) as u64);
            extend_chars(&mut out, &num);
            let labeled = match &m.category {
                Some(c) => !c.as_str().is_empty(),
                None => false,
            };
            if labeled {
                let c = match &m.category {
                    Some(c) => c.clone(),
                    None => String::new(),
                };
                let p = chars_of(". [");
                extend_chars(&mut out, &p);
                let cc = chars_of(c.as_str());
                extend_chars(&mut out, &cc);
                let q = chars_of("] ");
                extend_chars(&mut out, &q);
            } else {
                let p = chars_of(". ");
                extend_chars(&mut out, &p);
            }
            let body = chars_of(m.content.as_str());
            extend_chars(&mut out, &body);
            out.push('\n');
            assert(out@ =~= before + context_line(i as nat, sorted@[i as int]));
            i = i + 1;
        }
        string_of(&out)
    }
}

} // verus!

verus! {

proof fn lemma_first_found(ms: Seq<PinnedMemory>, id: Seq<char>, from: int, j: int)
    requires
        0 <= from <= j < ms.len(),
        ms[j].id@ == id,
    ensures
        first_with_id(ms, id, from) is Some,
    decreases j - from,
{
    if ms[from].id@ != id {
        lemma_first_found(ms, id, from + 1, j);
    }
}

/// Adding the same memory twice leaves what adding it once leaves.
pub proof fn lemma_add_idempotent(ms: Seq<PinnedMemory>, m: PinnedMemory)
    ensures
        with_added(with_added(ms, m), m) == with_added(ms, m),
{
    if first_with_id(ms, m.id@, 0) is None {
        lemma_first_found(ms.push(m), m.id@, 0, ms.len() as int);
    }
}

/// After a delete no memory has the id, and every other memory stays, in order.
pub proof fn lemma_delete_removes(ms: Seq<PinnedMemory>, id: Seq<char>)
    ensures
        forall|k: int| 0 <= k < without_id(ms, id).len() ==> (#[trigger] without_id(ms, id)[k]).id@ != id,
        forall|k: int| 0 <= k < without_id(ms, id).len() ==> ms.contains(#[trigger] without_id(ms, id)[k]),
        forall|k: int| 0 <= k < ms.len() && ms[k].id@ != id ==> without_id(ms, id).contains(#[trigger] ms[k]),
    decreases ms.len(),
{
    if ms.len() > 0 {
        let d = ms.drop_last();
        lemma_delete_removes(d, id);
        let r = without_id(ms, id);
        let rd = without_id(d, id);
        assert forall|k: int| 0 <= k < r.len() implies (#[trigger] r[k]).id@ != id && ms.contains(r[k]) by {
            if k < rd.len() {
                assert(r[k] == rd[k]);
                let w = choose|w: int| 0 <= w < d.len() && d[w] == rd[k];
                assert(ms[w] == d[w]);
            } else {
                assert(r[k] == ms.last());
                assert(ms[ms.len() - 1] == ms.last());
            }
        }
        assert forall|k: int| 0 <= k < ms.len() && ms[k].id@ != id implies r.contains(#[trigger] ms[k]) by {
            if k < d.len() {
                assert(d[k] == ms[k]);
                assert(rd.contains(d[k]));
                let w = choose|w: int| 0 <= w < rd.len() && rd[w] == d[k];
                assert(r[w] == rd[w]);
            } else {
                assert(r[r.len() - 1] == ms[k]);
            }
        }
    }
}

spec fn in_order_fact(keys: Seq<u64>, order: Seq<int>, a: int, b: int) -> bool {
    crate::order::in_order(keys[order[a]], keys[order[b]], true)
}

/// The list holds every memory once and runs newest first.
pub proof fn lemma_list_newest_first(ms: Seq<PinnedMemory>)
    ensures
        by_time(ms, true).len() == ms.len(),
        forall|a: int, b: int| 0 <= a < b < ms.len() ==> by_time(ms, true)[a].created_at >= by_time(ms, true)[b].created_at,
        forall|i: int| 0 <= i < ms.len() ==> by_time(ms, true).contains(#[trigger] ms[i]),
{
    broadcast use vstd::seq_lib::to_multiset_contains;

    let keys = created_keys(ms);
    let order = stable_order(keys, ms.len(), true);
    crate::order::lemma_stable_order_sorted(keys, ms.len(), true);
    crate::order::lemma_stable_order_permutation(keys, ms.len(), true);
    crate::order::lemma_order_range_pub(keys, ms.len(), true);
    let r = by_time(ms, true);
    assert forall|a: int, b: int| 0 <= a < b < ms.len() implies r[a].created_at >= r[b].created_at by {
        assert(in_order_fact(keys, order, a, b));
        assert(keys[order[a]] == ms[order[a]].created_at);
        assert(keys[order[b]] == ms[order[b]].created_at);
    }
    assert forall|i: int| 0 <= i < ms.len() implies r.contains(#[trigger] ms[i]) by {
        let all = Seq::new(ms.len(), |j: int| j);
        assert(all[i] == i);
        assert(all.contains(i));
        assert(all.to_multiset().count(i) > 0);
        assert(order.to_multiset().count(i) > 0);
        assert(order.contains(i));
        let j = choose|j: int| 0 <= j < order.len() && order[j] == i;
        assert(r[j] == ms[i]);
    }
}

proof fn lemma_first_with_id_at(ms: Seq<PinnedMemory>, id: Seq<char>, from: int, i: int)
    requires
        0 <= from <= i < ms.len(),
        ms[i].id@ == id,
        forall|j: int| from <= j < i ==> (#[trigger] ms[j]).id@ != id,
    ensures
        first_with_id(ms, id, from) == Some(i),
    decreases i - from,
{
    if from < i {
        lemma_first_with_id_at(ms, id, from + 1, i);
    }
}

proof fn lemma_first_with_id_facts(ms: Seq<PinnedMemory>, id: Seq<char>, from: int)
    requires
        0 <= from,
    ensures
        first_with_id(ms, id, from) matches Some(i) ==> from <= i < ms.len() && ms[i].id@ == id
            && forall|j: int| from <= j < i ==> (#[trigger] ms[j]).id@ != id,
        first_with_id(ms, id, from) is None ==> forall|j: int| from <= j < ms.len() ==> (#[trigger] ms[j]).id@ != id,
    decreases ms.len() - from,
{
    if from < ms.len() && ms[from].id@ != id {
        lemma_first_with_id_facts(ms, id, from + 1);
    }
}

/// After adding a memory, looking up its id finds it: the memory itself when
/// its id was new, the one already there otherwise.
pub proof fn lemma_add_then_get(ms: Seq<PinnedMemory>, m: PinnedMemory)
    ensures
        first_with_id(with_added(ms, m), m.id@, 0) matches Some(i) && with_added(ms, m)[i] == match first_with_id(ms, m.id@, 0) {
            Some(k) => ms[k],
            None => m,
        },
{
    lemma_first_with_id_facts(ms, m.id@, 0);
    if first_with_id(ms, m.id@, 0) is None {
        let a = ms.push(m);
        assert forall|j: int| 0 <= j < ms.len() implies (#[trigger] a[j]).id@ != m.id@ by {
            assert(a[j] == ms[j]);
        }
        lemma_first_with_id_at(a, m.id@, 0, ms.len() as int);
    }
}

/// After an update of a memory, looking up its id finds the memory with the
/// new content and category (each kept when not given) and nothing else
/// changed.
pub proof fn lemma_update_then_get(ms: Seq<PinnedMemory>, id: Seq<char>, content: Option<String>, category: Option<Option<String>>)
    requires
        first_with_id(ms, id, 0) is Some,
    ensures
        ({
            let i = first_with_id(ms, id, 0)->0;
            let m = ms[i];
            let u = ms.update(i, PinnedMemory {
                content: match content { Some(c) => c, None => m.content },
                category: match category { Some(c) => c, None => m.category },
                ..m
            });
            &&& first_with_id(u, id, 0) == Some(i)
            &&& u[i].content == match content { Some(c) => c, None => m.content }
            &&& u[i].category == match category { Some(c) => c, None => m.category }
            &&& u[i].id == m.id && u[i].created_at == m.created_at && u[i].source == m.source
        }),
{
    lemma_first_with_id_facts(ms, id, 0);
    let i = first_with_id(ms, id, 0)->0;
    let m = ms[i];
    let u = ms.update(i, PinnedMemory {
        content: match content { Some(c) => c, None => m.content },
        category: match category { Some(c) => c, None => m.category },
        ..m
    });
    assert forall|j: int| 0 <= j < i implies (#[trigger] u[j]).id@ != id by {
        assert(u[j] == ms[j]);
    }
    lemma_first_with_id_at(u, id, 0, i);
}

} // verus!

verus! {

spec fn ascending_fact(keys: Seq<u64>, order: Seq<int>, a: int, b: int) -> bool {
    crate::order::in_order(keys[order[a]], keys[order[b]], false)
}

/// The memories oldest first: every memory, by non-decreasing creation time.
proof fn lemma_by_time_oldest_first(ms: Seq<PinnedMemory>)
    ensures
        by_time(ms, false).len() == ms.len(),
        forall|a: int, b: int| 0 <= a < b < ms.len() ==> by_time(ms, false)[a].created_at <= by_time(ms, false)[b].created_at,
        forall|i: int| 0 <= i < ms.len() ==> by_time(ms, false).contains(#[trigger] ms[i]),
{
    broadcast use vstd::seq_lib::to_multiset_contains;

    let keys = created_keys(ms);
    let order = stable_order(keys, ms.len(), false);
    crate::order::lemma_stable_order_sorted(keys, ms.len(), false);
    crate::order::lemma_stable_order_permutation(keys, ms.len(), false);
    crate::order::lemma_order_range_pub(keys, ms.len(), false);
    let r = by_time(ms, false);
    assert forall|a: int, b: int| 0 <= a < b < ms.len() implies r[a].created_at <= r[b].created_at by {
        assert(ascending_fact(keys, order, a, b));
        assert(keys[order[a]] == ms[order[a]].created_at);
        assert(keys[order[b]] == ms[order[b]].created_at);
    }
    assert forall|i: int| 0 <= i < ms.len() implies r.contains(#[trigger] ms[i]) by {
        let all = Seq::new(ms.len(), |j: int| j);
        assert(all[i] == i);
        assert(all.contains(i));
        assert(all.to_multiset().count(i) > 0);
        assert(order.to_multiset().count(i) > 0);
        assert(order.contains(i));
        let j = choose|j: int| 0 <= j < order.len() && order[j] == i;
        assert(r[j] == ms[i]);
    }
}

/// The line that lists memory `m` at position `k`: its 1-based number, the
/// category in brackets when it has a non-empty one, the content.
spec fn listed_line(k: int, m: PinnedMemory) -> Seq<char> {
    dec((k + 1) as nat) + ". "@ + (match m.category {
        Some(c) => if c@.len() > 0 {
            "["@ + c@ + "] "@
        } else {
            Seq::empty()
        },
        None => Seq::empty(),
    }) + m.content@ + "\n"@
}

proof fn lemma_lines_flatten(l: Seq<PinnedMemory>, k: nat)
    requires
        k <= l.len(),
    ensures
        context_lines(l, k) == Seq::new(k, |j: int| listed_line(j, l[j])).flatten(),
    decreases k,
{
    broadcast use Seq::lemma_flatten_push;

    let f = Seq::new(k, |j: int| listed_line(j, l[j]));
    if k == 0 {
        assert(f =~= Seq::<Seq<char>>::empty());
    } else {
        lemma_lines_flatten(l, (k - 1) as nat);
        let g = Seq::new((k - 1) as nat, |j: int| listed_line(j, l[j]));
        assert(f =~= g.push(listed_line(k - 1, l[k - 1])));
        assert("\n"@ =~= seq!['\n']) by {
            reveal_strlit("\n");
        }
        reveal_strlit(". [");
        reveal_strlit(". ");
        reveal_strlit("[");
        reveal_strlit("] ");
        let m = l[k - 1];
        match m.category {
            Some(c) => {
                if c@.len() > 0 {
                    assert(context_line((k - 1) as nat, m) =~= listed_line(k - 1, m));
                } else {
                    assert(context_line((k - 1) as nat, m) =~= listed_line(k - 1, m));
                }
            },
            None => {
                assert(context_line((k - 1) as nat, m) =~= listed_line(k - 1, m));
            },
        }
    }
}

/// The context text lists the memories oldest first: after the header,
/// one numbered line per memory (`1. [category] content`), in an order that
/// holds every memory and never puts a later-created memory before an
/// earlier one.
pub proof fn lemma_context_oldest_first(ms: Seq<PinnedMemory>) -> (listed: Seq<PinnedMemory>)
    requires
        ms.len() > 0,
    ensures
        listed.len() == ms.len(),
        forall|a: int, b: int| 0 <= a < b < listed.len() ==> listed[a].created_at <= listed[b].created_at,
        forall|i: int| 0 <= i < ms.len() ==> listed.contains(#[trigger] ms[i]),
        context_text(ms) == "[永久记忆]（用户要求永久记住的内容，请始终遵守/参考）\n"@ + Seq::new(
            ms.len(),
            |k: int|
                dec((k + 1) as nat) + ". "@ + (match listed[k].category {
                    Some(c) => if c@.len() > 0 {
                        "["@ + c@ + "] "@
                    } else {
                        Seq::empty()
                    },
                    None => Seq::empty(),
                }) + listed[k].content@ + "\n"@,
        ).flatten(),
{
    let l = by_time(ms, false);
    lemma_by_time_oldest_first(ms);
    lemma_lines_flatten(l, ms.len());
    assert(Seq::new(ms.len(), |j: int| listed_line(j, l[j])) =~= Seq::new(
        ms.len(),
        |k: int|
            dec((k + 1) as nat) + ". "@ + (match l[k].category {
                Some(c) => if c@.len() > 0 {
                    "["@ + c@ + "] "@
                } else {
                    Seq::empty()
                },
                None => Seq::empty(),
            }) + l[k].content@ + "\n"@,
    ));
    l
}

} // verus!
