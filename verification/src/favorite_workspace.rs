//! Favourite workspaces: the collection and its operations; persisting it is
//! the application's part.

use vstd::prelude::*;
use crate::error::CoreError;
use crate::ids::{new_uuid, now_millis, uuid_shaped};
use crate::order::{sorted_positions, stable_order};
use crate::text::{chars_of, string_of, trim, trim_chars};

verus! {

/// A favourite workspace.
#[derive(Debug, Clone)]
pub struct FavoriteWorkspace {
    pub id: String,
    pub path: String,
    /// When it was added, in milliseconds; later additions are larger.
    pub created_at: u64,
}

impl FavoriteWorkspace {
    /// A copy of `self`.
    pub fn duplicate(&self) -> (r: FavoriteWorkspace)
        ensures
            r == *self,
    {
        FavoriteWorkspace { id: self.id.clone(), path: self.path.clone(), created_at: self.created_at }
    }
}

/// The favourites, in the order they were added.
pub struct FavoriteWorkspaces {
    pub workspaces: Vec<FavoriteWorkspace>,
}

pub open spec fn time_keys(ws: Seq<FavoriteWorkspace>) -> Seq<u64> {
    ws.map_values(|w: FavoriteWorkspace| w.created_at)
}

/// The favourites newest first (equal times keep their order).
pub open spec fn newest_first(ws: Seq<FavoriteWorkspace>) -> Seq<FavoriteWorkspace> {
    let order = stable_order(time_keys(ws), ws.len(), true);
    Seq::new(ws.len(), |j: int| ws[order[j]])
}

/// Position of the first favourite whose path is `path`.
pub open spec fn first_with_path(ws: Seq<FavoriteWorkspace>, path: Seq<char>, from: int) -> Option<int>
    decreases ws.len() - from,
{
    if from < 0 || from >= ws.len() {
        None
    } else if ws[from].path@ == path {
        Some(from)
    } else {
        first_with_path(ws, path, from + 1)
    }
}

/// Position of the first favourite whose id is `id`.
pub open spec fn first_with_id(ws: Seq<FavoriteWorkspace>, id: Seq<char>, from: int) -> Option<int>
    decreases ws.len() - from,
{
    if from < 0 || from >= ws.len() {
        None
    } else if ws[from].id@ == id {
        Some(from)
    } else {
        first_with_id(ws, id, from + 1)
    }
}

/// The largest creation time of `ws` (0 when empty).
pub open spec fn latest(ws: Seq<FavoriteWorkspace>) -> u64
    decreases ws.len(),
{
    if ws.len() == 0 {
        0
    } else {
        let a = latest(ws.drop_last());
        if ws.last().created_at > a { ws.last().created_at } else { a }
    }
}

/// The creation time one past the larger of `latest` and `clock`.
pub open spec fn stamp_after(latest: int, clock: int) -> int {
    (if latest > clock { latest } else { clock }) + 1
}

/// What a successful addition of the trimmed `path` to `before` gives: the
/// id of the favourite already there with that path, the list unchanged; or
/// a new favourite appended with a fresh random id, the path, and the
/// creation time one past the larger of the latest one and a clock reading
/// (which fits in an `i64`), which is then the latest.
pub open spec fn add_outcome(
    before: Seq<FavoriteWorkspace>,
    path: Seq<char>,
    id: String,
    after: Seq<FavoriteWorkspace>,
) -> bool {
    match first_with_path(before, path, 0) {
        Some(i) => id == before[i].id && after == before,
        None => {
            let w = after.last();
            &&& after == before.push(w)
            &&& w.id == id
            &&& uuid_shaped(w.id@)
            &&& w.path@ == path
            &&& exists|c: int| 0 <= c <= i64::MAX && w.created_at == #[trigger] stamp_after(latest(before) as int, c)
            &&& latest(after) == w.created_at
        },
    }
}

proof fn lemma_first_with_path_push(ws: Seq<FavoriteWorkspace>, w: FavoriteWorkspace, path: Seq<char>, from: int)
    requires
        0 <= from <= ws.len(),
        first_with_path(ws, path, from) is None,
        w.path@ == path,
    ensures
        first_with_path(ws.push(w), path, from) == Some(ws.len() as int),
    decreases ws.len() - from,
{
    if from < ws.len() {
        assert(ws.push(w)[from] == ws[from]);
        lemma_first_with_path_push(ws, w, path, from + 1);
    } else {
        assert(ws.push(w)[from] == w);
    }
}

/// Adding the same path twice: both additions give the same id, the second
/// changes nothing, and the list grows by one only when the path was new.
/// When the latest creation time leaves room for two more, the second
/// addition's bound on the latest time holds after the first.
pub proof fn lemma_add_twice(
    ws0: Seq<FavoriteWorkspace>,
    path: Seq<char>,
    id1: String,
    ws1: Seq<FavoriteWorkspace>,
    id2: String,
    ws2: Seq<FavoriteWorkspace>,
)
    requires
        add_outcome(ws0, path, id1, ws1),
        add_outcome(ws1, path, id2, ws2),
    ensures
        id1 == id2,
        ws2 == ws1,
        ws1.len() == ws0.len() + if first_with_path(ws0, path, 0) is None {
            1int
        } else {
            0int
        },
        latest(ws0) < u64::MAX - 1 ==> latest(ws1) < u64::MAX,
{
    match first_with_path(ws0, path, 0) {
        Some(i) => {},
        None => {
            let w = ws1.last();
            lemma_first_with_path_push(ws0, w, path, 0);
            assert(ws1[ws0.len() as int] == w);
        },
    }
}

/// `ws` without the favourites whose id is `id`.
pub open spec fn without_id(ws: Seq<FavoriteWorkspace>, id: Seq<char>) -> Seq<FavoriteWorkspace>
    decreases ws.len(),
{
    if ws.len() == 0 {
        Seq::empty()
    } else {
        let rest = without_id(ws.drop_last(), id);
        if ws.last().id@ == id { rest } else { rest.push(ws.last()) }
    }
}

fn position_by(ws: &Vec<FavoriteWorkspace>, key: &[char], by_path: bool) -> (r: Option<usize>)
    ensures
        by_path ==> (r matches Some(i) ==> i < ws.len() && first_with_path(ws@, key@, 0) == Some(i as int)),
        by_path ==> (r is None ==> first_with_path(ws@, key@, 0) is None),
        !by_path ==> (r matches Some(i) ==> i < ws.len() && first_with_id(ws@, key@, 0) == Some(i as int)),
        !by_path ==> (r is None ==> first_with_id(ws@, key@, 0) is None),
{
    let mut i: usize = 0;
    while i < ws.len()
        invariant
            i <= ws.len(),
            by_path ==> first_with_path(ws@, key@, 0) == first_with_path(ws@, key@, i as int),
            !by_path ==> first_with_id(ws@, key@, 0) == first_with_id(ws@, key@, i as int),
        decreases ws.len() - i,
    {
        let c = if by_path { chars_of(ws[i].path.as_str()) } else { chars_of(ws[i].id.as_str()) };
        if crate::text::eq_chars(&c, key) {
            return Some(i);
        }
        i = i + 1;
    }
    None
}

impl FavoriteWorkspaces {
    /// No favourites.
    pub fn new() -> (s: FavoriteWorkspaces)
        ensures
            s.workspaces@.len() == 0,
    {
        FavoriteWorkspaces { workspaces: Vec::new() }
    }

    /// All favourites, newest first.
    pub fn list(&self) -> (r: Vec<FavoriteWorkspace>)
        ensures
            r@ == newest_first(self.workspaces@),
    {
        let mut keys: Vec<u64> = Vec::new();
        let mut i: usize = 0;
        while i < self.workspaces.len()
            invariant
                i <= self.workspaces.len(),
                keys@ == time_keys(self.workspaces@).subrange(0, i as int),
            decreases self.workspaces.len() - i,
        {
            keys.push(self.workspaces[i].created_at);
            i = i + 1;
            assert(keys@ =~= time_keys(self.workspaces@).subrange(0, i as int));
        }
        assert(keys@ =~= time_keys(self.workspaces@));
        let order = sorted_positions(&keys, true);
        let ghost ord = stable_order(time_keys(self.workspaces@), self.workspaces@.len(), true);
        let mut out: Vec<FavoriteWorkspace> = Vec::new();
        let mut j: usize = 0;
        while j < order.len()
            invariant
                j <= order.len(),
                order@.len() == self.workspaces@.len(),
                forall|k: int| 0 <= k < order@.len() ==> #[trigger] order@[k] < self.workspaces@.len(),
                ord == crate::order::as_ints(order@),
                out@.len() == j,
                forall|k: int| 0 <= k < j ==> #[trigger] out@[k] == self.workspaces@[ord[k]],
            decreases order.len() - j,
        {
            let p = order[j];
            assert(ord[j as int] == p as int);
            out.push(self.workspaces[p].duplicate());
            j = j + 1;
        }
        assert(out@ =~= newest_first(self.workspaces@));
        out
    }

    /// The largest creation time.
    fn latest_time(&self) -> (t: u64)
        ensures
            t == latest(self.workspaces@),
    {
        let mut t: u64 = 0;
        let mut i: usize = 0;
        while i < self.workspaces.len()
            invariant
                i <= self.workspaces.len(),
                t == latest(self.workspaces@.subrange(0, i as int)),
            decreases self.workspaces.len() - i,
        {
            assert(self.workspaces@.subrange(0, i + 1).drop_last() =~= self.workspaces@.subrange(0, i as int));
            if self.workspaces[i].created_at > t {
                t = self.workspaces[i].created_at;
            }
            i = i + 1;
        }
        assert(self.workspaces@.subrange(0, self.workspaces@.len() as int) =~= self.workspaces@);
        t
    }

    /// Adds the trimmed `path` and returns its id. A blank path is refused; a
    /// path already there gives its existing id and changes nothing; a new one
    /// gets a fresh random id and the creation time one past the larger of the
    /// latest creation time and the clock (milliseconds since the epoch, which
    /// fit in an `i64`), so it is the latest one.
    pub fn add(&mut self, path: &str) -> (r: Result<String, CoreError>)
        requires
            latest(old(self).workspaces@) < u64::MAX,
        ensures
            trim(path@).len() == 0 <==> r is Err,
            r matches Err(e) ==> e matches CoreError::Msg(m) && m@ == "收藏的工作区路径不能为空"@,
            r is Err ==> final(self).workspaces@ == old(self).workspaces@,
            r is Ok ==> add_outcome(old(self).workspaces@, trim(path@), r->Ok_0, final(self).workspaces@),
    {
        let cs = chars_of(path);
        let t = trim_chars(&cs);
        if t.len() == 0 {
            return Err(CoreError::Msg("收藏的工作区路径不能为空".to_string()));
        }
        let id = new_uuid();
        let now_i = now_millis();
        let now: u64 = now_i as u64;
        let max = self.latest_time();
        let base = if max > now { max } else { now };
        let created_at = base + 1;
        match position_by(&self.workspaces, &t, true) {
            Some(i) => Ok(self.workspaces[i].id.clone()),
            None => {
                let w = FavoriteWorkspace { id: id.clone(), path: string_of(&t), created_at };
                let ghost before = self.workspaces@;
                self.workspaces.push(w);
                assert(self.workspaces@.drop_last() =~= before);
                assert(created_at == stamp_after(max as int, now_i as int));
                Ok(id)
            },
        }
    }

    /// Removes every favourite with id `id`; says whether any was there.
    pub fn delete(&mut self, id: &str) -> (changed: bool)
        ensures
            final(self).workspaces@ == without_id(old(self).workspaces@, id@),
            changed == (final(self).workspaces@.len() != old(self).workspaces@.len()),
    {
        let ghost ws = self.workspaces@;
        let target = chars_of(id);
        let mut kept: Vec<FavoriteWorkspace> = Vec::new();
        let mut i: usize = 0;
        while i < self.workspaces.len()
            invariant
                i <= self.workspaces.len(),
                ws == self.workspaces@,
                target@ == id@,
                kept@ == without_id(ws.subrange(0, i as int), id@),
            decreases self.workspaces.len() - i,
        {
            assert(ws.subrange(0, i + 1).drop_last() =~= ws.subrange(0, i as int));
            assert(ws.subrange(0, i + 1).last() == ws[i as int]);
            let c = chars_of(self.workspaces[i].id.as_str());
            if !crate::text::eq_chars(&c, &target) {
                kept.push(self.workspaces[i].duplicate());
            }
            i = i + 1;
        }
        assert(ws.subrange(0, ws.len() as int) =~= ws);
        let changed = kept.len() != self.workspaces.len();
        self.workspaces = kept;
        changed
    }

    /// The first favourite with id `id`.
    pub fn get(&self, id: &str) -> (r: Option<FavoriteWorkspace>)
        ensures
            r == match first_with_id(self.workspaces@, id@, 0) {
                Some(i) => Some(self.workspaces@[i]),
                None => None::<FavoriteWorkspace>,
            },
    {
        let target = chars_of(id);
        match position_by(&self.workspaces, &target, false) {
            Some(i) => Some(self.workspaces[i].duplicate()),
            None => None,
        }
    }
}

spec fn ordered_pair(keys: Seq<u64>, order: Seq<int>, a: int, b: int) -> bool {
    crate::order::in_order(keys[order[a]], keys[order[b]], true)
}

/// The list holds every favourite and runs newest first.
pub proof fn lemma_favorites_newest_first(ws: Seq<FavoriteWorkspace>)
    ensures
        newest_first(ws).len() == ws.len(),
        forall|a: int, b: int| 0 <= a < b < ws.len() ==> newest_first(ws)[a].created_at >= newest_first(ws)[b].created_at,
        forall|i: int| 0 <= i < ws.len() ==> newest_first(ws).contains(#[trigger] ws[i]),
{
    broadcast use vstd::seq_lib::to_multiset_contains;

    let keys = time_keys(ws);
    let order = stable_order(keys, ws.len(), true);
    crate::order::lemma_stable_order_sorted(keys, ws.len(), true);
    crate::order::lemma_stable_order_permutation(keys, ws.len(), true);
    crate::order::lemma_order_range_pub(keys, ws.len(), true);
    let r = newest_first(ws);
    assert forall|a: int, b: int| 0 <= a < b < ws.len() implies r[a].created_at >= r[b].created_at by {
        assert(ordered_pair(keys, order, a, b));
        assert(keys[order[a]] == ws[order[a]].created_at);
        assert(keys[order[b]] == ws[order[b]].created_at);
    }
    assert forall|i: int| 0 <= i < ws.len() implies r.contains(#[trigger] ws[i]) by {
        let all = Seq::new(ws.len(), |j: int| j);
        assert(all[i] == i);
        assert(all.contains(i));
        assert(all.to_multiset().count(i) > 0);
        assert(order.to_multiset().count(i) > 0);
        assert(order.contains(i));
        let j = choose|j: int| 0 <= j < order.len() && order[j] == i;
        assert(r[j] == ws[i]);
    }
}

} // verus!
