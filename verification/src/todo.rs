//! The structured to-do list: the items, how a write merges into the current
//! list, the invariants a write restores, and the text shown to the model.

use vstd::prelude::*;
use crate::text::{
    chars_of, dec, dec_chars, extend_chars, parse_u64, parse_u64_chars, string_of, trim,
    trim_chars,
};

verus! {

/// Priority of an item; the declared order is the display order.
#[derive(Debug, Clone, Copy, PartialEq, Eq, Structural)]
pub enum TodoPriority {
    High,
    Medium,
    Low,
}

/// State of an item.
#[derive(Debug, Clone, Copy, PartialEq, Eq, Structural)]
pub enum TodoStatus {
    Pending,
    InProgress,
    Completed,
}

/// One to-do item.
#[derive(Debug, Clone)]
pub struct TodoItem {
    pub id: String,
    pub content: String,
    pub priority: TodoPriority,
    pub status: TodoStatus,
    /// Summary of the work, kept only on completed items.
    pub summary: Option<String>,
    /// The parent item, `None` for a root item.
    pub parent_id: Option<String>,
    /// `"urgent"` or `"not_urgent"`.
    pub urgency: Option<String>,
    /// Due date, ISO 8601.
    pub due_date: Option<String>,
    /// Due time, `HH:mm`.
    pub due_time: Option<String>,
    pub reminder_minutes_before: Option<u32>,
    /// `"once"`, `"daily"` or `"cumulative"`.
    pub repeat_type: Option<String>,
    /// Target count of a cumulative item.
    pub repeat_count: Option<u32>,
    pub check_in_dates: Option<Vec<String>>,
    pub reminder_enabled: bool,
    pub tags: Option<Vec<String>>,
}

/// What an item is, as the contracts see it.
pub struct TodoModel {
    pub id: Seq<char>,
    pub content: Seq<char>,
    pub priority: TodoPriority,
    pub status: TodoStatus,
    pub summary: Option<String>,
    pub parent_id: Option<String>,
    pub urgency: Option<String>,
    pub due_date: Option<String>,
    pub due_time: Option<String>,
    pub reminder_minutes_before: Option<u32>,
    pub repeat_type: Option<String>,
    pub repeat_count: Option<u32>,
    pub check_in_dates: Option<Seq<String>>,
    pub reminder_enabled: bool,
    pub tags: Option<Seq<String>>,
}

pub open spec fn list_view(o: Option<Vec<String>>) -> Option<Seq<String>> {
    match o {
        Some(v) => Some(v@),
        None => None,
    }
}

impl View for TodoItem {
    type V = TodoModel;

    open spec fn view(&self) -> TodoModel {
        TodoModel {
            id: self.id@,
            content: self.content@,
            priority: self.priority,
            status: self.status,
            summary: self.summary,
            parent_id: self.parent_id,
            urgency: self.urgency,
            due_date: self.due_date,
            due_time: self.due_time,
            reminder_minutes_before: self.reminder_minutes_before,
            repeat_type: self.repeat_type,
            repeat_count: self.repeat_count,
            check_in_dates: list_view(self.check_in_dates),
            reminder_enabled: self.reminder_enabled,
            tags: list_view(self.tags),
        }
    }
}

/// The views of a sequence of items.
pub open spec fn todo_views(v: Seq<TodoItem>) -> Seq<TodoModel> {
    v.map_values(|t: TodoItem| t@)
}

fn dup_text(o: &Option<String>) -> (r: Option<String>)
    ensures
        r == *o,
{
    match o {
        Some(s) => Some(s.clone()),
        None => None,
    }
}

fn dup_strings(v: &Vec<String>) -> (r: Vec<String>)
    ensures
        r@ == v@,
{
    let mut r: Vec<String> = Vec::new();
    let mut i: usize = 0;
    while i < v.len()
        invariant
            i <= v.len(),
            r@ == v@.subrange(0, i as int),
        decreases v.len() - i,
    {
        r.push(v[i].clone());
        i = i + 1;
        assert(r@ =~= v@.subrange(0, i as int));
    }
    assert(r@ =~= v@);
    r
}

fn dup_list(o: &Option<Vec<String>>) -> (r: Option<Vec<String>>)
    ensures
        list_view(r) == list_view(*o),
{
    match o {
        Some(v) => Some(dup_strings(v)),
        None => None,
    }
}

impl TodoItem {
    /// A copy of `self`.
    pub fn duplicate(&self) -> (r: TodoItem)
        ensures
            r@ == self@,
    {
        TodoItem {
            id: self.id.clone(),
            content: self.content.clone(),
            priority: self.priority,
            status: self.status,
            summary: dup_text(&self.summary),
            parent_id: dup_text(&self.parent_id),
            urgency: dup_text(&self.urgency),
            due_date: dup_text(&self.due_date),
            due_time: dup_text(&self.due_time),
            reminder_minutes_before: self.reminder_minutes_before,
            repeat_type: dup_text(&self.repeat_type),
            repeat_count: self.repeat_count,
            check_in_dates: dup_list(&self.check_in_dates),
            reminder_enabled: self.reminder_enabled,
            tags: dup_list(&self.tags),
        }
    }
}

/// Arguments of a write: the items, and whether to merge them into the
/// current list (by default they replace it).
pub struct TodoWriteArgs {
    pub todos: Vec<TodoItem>,
    pub merge: Option<bool>,
}

/// A refused write, by its message.
#[derive(Debug)]
pub struct TodoWriteError(pub String);

impl TodoWriteError {
    /// The text the error shows.
    pub fn message(&self) -> (r: String)
        ensures
            r@ == "todo_write error: "@ + self.0@,
    {
        crate::text::str_cat("todo_write error: ", self.0.as_str())
    }
}

} // verus!

verus! {

/// The numeric value of an id, 0 when it is not a number.
pub open spec fn id_number(id: Seq<char>) -> nat {
    match parse_u64(id) {
        Some(n) => n as nat,
        None => 0,
    }
}

/// The largest numeric id of `ts` (0 when none is numeric).
pub open spec fn max_id(ts: Seq<TodoModel>) -> nat
    decreases ts.len(),
{
    if ts.len() == 0 {
        0
    } else {
        let a = max_id(ts.drop_last());
        let b = id_number(ts.last().id);
        if a >= b {
            a
        } else {
            b
        }
    }
}

/// `n + 1`, saturating at the largest `u64`.
pub open spec fn sat_next(n: nat) -> nat {
    if n + 1 > u64::MAX {
        u64::MAX as nat
    } else {
        n + 1
    }
}

pub open spec fn with_id(t: TodoModel, id: Seq<char>) -> TodoModel {
    TodoModel { id, ..t }
}

/// `ts` with each empty id replaced by the next number, counting up from
/// `next` (saturating at the largest `u64`).
pub open spec fn filled(ts: Seq<TodoModel>, next: nat) -> Seq<TodoModel>
    decreases ts.len(),
{
    if ts.len() == 0 {
        Seq::empty()
    } else if ts[0].id.len() == 0 {
        seq![with_id(ts[0], dec(next))] + filled(ts.drop_first(), sat_next(next))
    } else {
        seq![ts[0]] + filled(ts.drop_first(), next)
    }
}

/// The first number handed to an empty id: one more than the largest numeric
/// id of the current list and the incoming items.
pub open spec fn first_free_id(existing: Seq<TodoModel>, incoming: Seq<TodoModel>) -> nat {
    let a = max_id(existing);
    let b = max_id(incoming);
    sat_next(if a >= b { a } else { b })
}

fn max_numeric_id(ts: &Vec<TodoItem>) -> (m: u64)
    ensures
        m == max_id(todo_views(ts@)),
{
    let ghost tv = todo_views(ts@);
    let mut m: u64 = 0;
    let mut i: usize = 0;
    while i < ts.len()
        invariant
            i <= ts.len(),
            tv == todo_views(ts@),
            m == max_id(tv.subrange(0, i as int)),
        decreases ts.len() - i,
    {
        let cs = chars_of(ts[i].id.as_str());
        assert(tv.subrange(0, i + 1).drop_last() =~= tv.subrange(0, i as int));
        assert(tv.subrange(0, i + 1).last() == ts@[i as int]@);
        match parse_u64_chars(&cs) {
            Some(n) => {
                if n > m {
                    m = n;
                }
            },
            None => {},
        }
        i = i + 1;
    }
    assert(tv.subrange(0, tv.len() as int) =~= tv);
    m
}

/// Gives every item of `incoming` with an empty id the next free number
/// (see `first_free_id`), in order.
pub fn fill_empty_ids(existing: &Vec<TodoItem>, incoming: &mut Vec<TodoItem>)
    ensures
        todo_views(final(incoming)@) == filled(
            todo_views(old(incoming)@),
            first_free_id(todo_views(existing@), todo_views(old(incoming)@)),
        ),
{
    let ghost iv = todo_views(incoming@);
    let a = max_numeric_id(existing);
    let b = max_numeric_id(incoming);
    let mx = if a >= b { a } else { b };
    let mut next: u64 = mx.saturating_add(1);
    let mut out: Vec<TodoItem> = Vec::new();
    let mut i: usize = 0;
    assert(iv.subrange(0, iv.len() as int) =~= iv);
    while i < incoming.len()
        invariant
            i <= incoming.len(),
            iv == todo_views(incoming@),
            todo_views(out@) + filled(iv.subrange(i as int, iv.len() as int), next as nat)
                == filled(iv, first_free_id(todo_views(existing@), iv)),
        decreases incoming.len() - i,
    {
        let ghost before = out@;
        let ghost rest = iv.subrange(i + 1, iv.len() as int);
        proof {
            crate::text::lemma_suffix_step(iv, i as int);
        }
        let mut t = incoming[i].duplicate();
        if t.id.as_str().is_empty() {
            let digits = dec_chars(next);
            t.id = string_of(&digits);
            let ghost old_next = next as nat;
            next = next.saturating_add(1);
            out.push(t);
            assert(todo_views(out@) =~= todo_views(before).push(with_id(iv[i as int], dec(old_next))));
        } else {
            out.push(t);
            assert(todo_views(out@) =~= todo_views(before).push(iv[i as int]));
        }
        i = i + 1;
    }
    assert(filled(iv.subrange(i as int, iv.len() as int), next as nat) =~= Seq::<TodoModel>::empty());
    assert(todo_views(out@) =~= filled(iv, first_free_id(todo_views(existing@), iv)));
    *incoming = out;
}

} // verus!

verus! {

/// Position of the first item of `list` with id `id`.
pub open spec fn first_with_id(list: Seq<TodoModel>, id: Seq<char>, from: int) -> Option<int>
    decreases list.len() - from,
{
    if from < 0 || from >= list.len() {
        None
    } else if list[from].id == id {
        Some(from)
    } else {
        first_with_id(list, id, from + 1)
    }
}

/// `list` with `item` in place of the first item with the same id, or
/// appended when there is none.
pub open spec fn merge_one(list: Seq<TodoModel>, item: TodoModel) -> Seq<TodoModel> {
    match first_with_id(list, item.id, 0) {
        Some(i) => list.update(i, item),
        None => list.push(item),
    }
}

/// `incoming` merged into `list` one item after the other.
pub open spec fn merged(list: Seq<TodoModel>, incoming: Seq<TodoModel>) -> Seq<TodoModel>
    decreases incoming.len(),
{
    if incoming.len() == 0 {
        list
    } else {
        merge_one(merged(list, incoming.drop_last()), incoming.last())
    }
}

fn position_of_id(list: &Vec<TodoItem>, id: &String) -> (r: Option<usize>)
    ensures
        r matches Some(i) ==> i < list.len() && first_with_id(todo_views(list@), id@, 0) == Some(
            i as int,
        ),
        r is None ==> first_with_id(todo_views(list@), id@, 0) is None,
{
    let ghost lv = todo_views(list@);
    let mut i: usize = 0;
    while i < list.len()
        invariant
            i <= list.len(),
            lv == todo_views(list@),
            first_with_id(lv, id@, 0) == first_with_id(lv, id@, i as int),
        decreases list.len() - i,
    {
        if list[i].id == *id {
            return Some(i);
        }
        i = i + 1;
    }
    None
}

/// Merges `incoming` into a copy of `existing` by id: an item with a known id
/// replaces it in place, an item with a new id is appended, and the items no
/// incoming id names stay as they are.
pub fn merge_into(existing: &Vec<TodoItem>, incoming: Vec<TodoItem>) -> (r: Vec<TodoItem>)
    ensures
        todo_views(r@) == merged(todo_views(existing@), todo_views(incoming@)),
{
    let ghost ev = todo_views(existing@);
    let ghost iv = todo_views(incoming@);
    let mut result: Vec<TodoItem> = Vec::new();
    let mut k: usize = 0;
    while k < existing.len()
        invariant
            k <= existing.len(),
            ev == todo_views(existing@),
            todo_views(result@) == ev.subrange(0, k as int),
        decreases existing.len() - k,
    {
        let ghost before = result@;
        result.push(existing[k].duplicate());
        assert(todo_views(result@) =~= todo_views(before).push(ev[k as int]));
        k = k + 1;
        assert(todo_views(result@) =~= ev.subrange(0, k as int));
    }
    assert(ev.subrange(0, ev.len() as int) =~= ev);
    let mut j: usize = 0;
    while j < incoming.len()
        invariant
            j <= incoming.len(),
            iv == todo_views(incoming@),
            todo_views(result@) == merged(ev, iv.subrange(0, j as int)),
        decreases incoming.len() - j,
    {
        let item = incoming[j].duplicate();
        let ghost before = result@;
        assert(iv.subrange(0, j + 1).drop_last() =~= iv.subrange(0, j as int));
        assert(iv.subrange(0, j + 1).last() == item@);
        match position_of_id(&result, &item.id) {
            Some(idx) => {
                result.set(idx, item);
                assert(todo_views(result@) =~= todo_views(before).update(idx as int, item@));
            },
            None => {
                result.push(item);
                assert(todo_views(result@) =~= todo_views(before).push(item@));
            },
        }
        j = j + 1;
    }
    assert(iv.subrange(0, iv.len() as int) =~= iv);
    result
}

/// `t` without a summary unless it is completed.
pub open spec fn summary_normalized(t: TodoModel) -> TodoModel {
    if t.status != TodoStatus::Completed {
        TodoModel { summary: None, ..t }
    } else {
        t
    }
}

/// Drops the summaries of the items that are not completed.
pub fn normalize_summaries(list: &mut Vec<TodoItem>)
    ensures
        todo_views(final(list)@) == todo_views(old(list)@).map_values(
            |t: TodoModel| summary_normalized(t),
        ),
{
    let ghost lv = todo_views(list@);
    let mut i: usize = 0;
    while i < list.len()
        invariant
            i <= list.len(),
            lv.len() == list@.len(),
            lv == todo_views(old(list)@),
            forall|k: int| 0 <= k < i ==> #[trigger] list@[k]@ == summary_normalized(lv[k]),
            forall|k: int| i <= k < list@.len() ==> #[trigger] list@[k]@ == lv[k],
        decreases list.len() - i,
    {
        if list[i].status != TodoStatus::Completed {
            let mut t = list[i].duplicate();
            t.summary = None;
            list.set(i, t);
        }
        i = i + 1;
    }
    assert(todo_views(list@) =~= lv.map_values(|t: TodoModel| summary_normalized(t)));
}

/// Some item of `s` is in progress.
pub open spec fn has_in_progress(s: Seq<TodoModel>) -> bool {
    exists|j: int| 0 <= j < s.len() && (#[trigger] s[j]).status == TodoStatus::InProgress
}

/// `ts` with every in-progress item after the first one set back to pending.
pub open spec fn in_progress_corrected(ts: Seq<TodoModel>) -> Seq<TodoModel> {
    Seq::new(
        ts.len(),
        |i: int|
            if ts[i].status == TodoStatus::InProgress && has_in_progress(ts.subrange(0, i)) {
                TodoModel { status: TodoStatus::Pending, ..ts[i] }
            } else {
                ts[i]
            },
    )
}

/// Keeps the first in-progress item (in list order) and sets the others back
/// to pending.
pub fn auto_correct_in_progress(list: &mut Vec<TodoItem>)
    ensures
        todo_views(final(list)@) == in_progress_corrected(todo_views(old(list)@)),
{
    let ghost lv = todo_views(list@);
    let mut seen = false;
    let mut i: usize = 0;
    while i < list.len()
        invariant
            i <= list.len(),
            lv.len() == list@.len(),
            lv == todo_views(old(list)@),
            seen == has_in_progress(lv.subrange(0, i as int)),
            forall|k: int| 0 <= k < i ==> #[trigger] list@[k]@ == in_progress_corrected(lv)[k],
            forall|k: int| i <= k < list@.len() ==> #[trigger] list@[k]@ == lv[k],
        decreases list.len() - i,
    {
        let ghost pre = lv.subrange(0, i as int);
        let ghost pre1 = lv.subrange(0, i + 1);
        assert(pre1 =~= pre.push(lv[i as int]));
        assert(list@[i as int]@ == lv[i as int]);
        if list[i].status == TodoStatus::InProgress {
            assert(pre1[i as int] == lv[i as int]);
            if seen {
                let mut t = list[i].duplicate();
                t.status = TodoStatus::Pending;
                list.set(i, t);
            } else {
                seen = true;
            }
        } else {
            assert forall|j: int| 0 <= j < pre1.len() && (#[trigger] pre1[j]).status
                == TodoStatus::InProgress implies 0 <= j < pre.len() && pre[j].status
                == TodoStatus::InProgress by {
                if j < pre.len() {
                    assert(pre1[j] == pre[j]);
                }
            }
        }
        proof {
            if seen {
                if !has_in_progress(pre) {
                    assert(pre1[i as int].status == TodoStatus::InProgress);
                } else {
                    let w = choose|j: int|
                        0 <= j < pre.len() && (#[trigger] pre[j]).status == TodoStatus::InProgress;
                    assert(pre1[w] == pre[w]);
                }
            }
        }
        i = i + 1;
    }
    assert(todo_views(list@) =~= in_progress_corrected(lv));
}

} // verus!

verus! {

/// In progress first, then pending, then completed.
pub open spec fn status_order(s: TodoStatus) -> nat {
    match s {
        TodoStatus::InProgress => 0,
        TodoStatus::Pending => 1,
        TodoStatus::Completed => 2,
    }
}

/// High first, then medium, then low.
pub open spec fn priority_order(p: TodoPriority) -> nat {
    match p {
        TodoPriority::High => 0,
        TodoPriority::Medium => 1,
        TodoPriority::Low => 2,
    }
}

/// The sort key: status first, then priority.
pub open spec fn sort_key(t: TodoModel) -> nat {
    status_order(t.status) * 3 + priority_order(t.priority)
}

/// `x` inserted into `s` after every item whose key is at most its own,
/// counting from the end.
pub open spec fn insert_stable(s: Seq<TodoModel>, x: TodoModel) -> Seq<TodoModel>
    decreases s.len(),
{
    if s.len() == 0 {
        seq![x]
    } else if sort_key(s.last()) <= sort_key(x) {
        s.push(x)
    } else {
        insert_stable(s.drop_last(), x).push(s.last())
    }
}

/// The stable sort of `ts` by `sort_key`: items with equal keys keep their order.
pub open spec fn stable_sorted(ts: Seq<TodoModel>) -> Seq<TodoModel>
    decreases ts.len(),
{
    if ts.len() == 0 {
        Seq::empty()
    } else {
        insert_stable(stable_sorted(ts.drop_last()), ts.last())
    }
}

/// Rank of a status in the list order: in progress 0, pending 1, completed 2.
pub fn status_rank(s: TodoStatus) -> (r: u8)
    ensures
        r == status_order(s),
{
    match s {
        TodoStatus::InProgress => 0,
        TodoStatus::Pending => 1,
        TodoStatus::Completed => 2,
    }
}

fn priority_rank(p: TodoPriority) -> (r: u8)
    ensures
        r == priority_order(p),
{
    match p {
        TodoPriority::High => 0,
        TodoPriority::Medium => 1,
        TodoPriority::Low => 2,
    }
}

fn key_of(t: &TodoItem) -> (k: u8)
    ensures
        k == sort_key(t@),
{
    status_rank(t.status) * 3 + priority_rank(t.priority)
}

proof fn lemma_insert_at(s: Seq<TodoModel>, x: TodoModel, p: int)
    requires
        0 <= p <= s.len(),
        forall|j: int| p <= j < s.len() ==> sort_key(#[trigger] s[j]) > sort_key(x),
        p == 0 || sort_key(s[p - 1]) <= sort_key(x),
    ensures
        insert_stable(s, x) == s.insert(p, x),
    decreases s.len(),
{
    if s.len() == 0 {
        assert(s.insert(p, x) =~= seq![x]);
    } else if p == s.len() {
        assert(s.insert(p, x) =~= s.push(x));
    } else {
        let d = s.drop_last();
        assert(sort_key(s[s.len() - 1]) > sort_key(x));
        assert forall|j: int| p <= j < d.len() implies sort_key(#[trigger] d[j]) > sort_key(x) by {
            assert(d[j] == s[j]);
        }
        if p > 0 {
            assert(d[p - 1] == s[p - 1]);
        }
        lemma_insert_at(d, x, p);
        assert(d.insert(p, x).push(s.last()) =~= s.insert(p, x));
    }
}

/// Sorts the list by status (in progress, pending, completed), then priority
/// (high, medium, low); items with the same status and priority keep their order.
pub fn sort_todos(list: &mut Vec<TodoItem>)
    ensures
        todo_views(final(list)@) == stable_sorted(todo_views(old(list)@)),
{
    let ghost lv = todo_views(list@);
    let mut out: Vec<TodoItem> = Vec::new();
    let mut i: usize = 0;
    while i < list.len()
        invariant
            i <= list.len(),
            lv == todo_views(list@),
            lv == todo_views(old(list)@),
            todo_views(out@) == stable_sorted(lv.subrange(0, i as int)),
        decreases list.len() - i,
    {
        let x = list[i].duplicate();
        let kx = key_of(&x);
        let ghost ov = todo_views(out@);
        let mut p: usize = out.len();
        while p > 0 && key_of(&out[p - 1]) > kx
            invariant
                p <= out.len(),
                ov == todo_views(out@),
                kx == sort_key(x@),
                forall|j: int| p <= j < ov.len() ==> sort_key(#[trigger] ov[j]) > sort_key(x@),
            decreases p,
        {
            p = p - 1;
        }
        proof {
            lemma_insert_at(ov, x@, p as int);
            assert(lv.subrange(0, i + 1).drop_last() =~= lv.subrange(0, i as int));
            assert(lv.subrange(0, i + 1).last() == x@);
        }
        out.insert(p, x);
        assert(todo_views(out@) =~= ov.insert(p as int, x@));
        i = i + 1;
    }
    assert(lv.subrange(0, lv.len() as int) =~= lv);
    *list = out;
}

} // verus!

verus! {

pub open spec fn status_icon_text(s: TodoStatus) -> Seq<char> {
    match s {
        TodoStatus::InProgress => "►"@,
        TodoStatus::Pending => "○"@,
        TodoStatus::Completed => "✓"@,
    }
}

pub open spec fn priority_text(p: TodoPriority) -> Seq<char> {
    match p {
        TodoPriority::High => "高"@,
        TodoPriority::Medium => "中"@,
        TodoPriority::Low => "低"@,
    }
}

pub open spec fn status_text(s: TodoStatus) -> Seq<char> {
    match s {
        TodoStatus::InProgress => "in_progress"@,
        TodoStatus::Pending => "pending"@,
        TodoStatus::Completed => "completed"@,
    }
}

/// The line of one item: icon, priority, id, content and status, and the
/// summary of a completed item.
pub open spec fn todo_line(t: TodoModel) -> Seq<char> {
    status_icon_text(t.status) + " ["@ + priority_text(t.priority) + "] "@ + t.id + ". "@
        + t.content + " ("@ + status_text(t.status) + ")"@ + (if t.status
        == TodoStatus::Completed && t.summary is Some {
        " - "@ + t.summary.unwrap()@
    } else {
        Seq::empty()
    }) + "\n"@
}

pub open spec fn todo_lines(ts: Seq<TodoModel>) -> Seq<char>
    decreases ts.len(),
{
    if ts.len() == 0 {
        Seq::empty()
    } else {
        todo_lines(ts.drop_last()) + todo_line(ts.last())
    }
}

/// Number of items of `ts` in state `s`.
pub open spec fn count_status(ts: Seq<TodoModel>, s: TodoStatus) -> nat
    decreases ts.len(),
{
    if ts.len() == 0 {
        0
    } else {
        count_status(ts.drop_last(), s) + if ts.last().status == s {
            1nat
        } else {
            0nat
        }
    }
}

/// The list as the model sees it: a header with the counts, then one line
/// per item, without a final line break.
pub open spec fn todo_text(ts: Seq<TodoModel>) -> Seq<char> {
    if ts.len() == 0 {
        "待办列表为空。"@
    } else {
        let full = "待办列表（共 "@ + dec(ts.len()) + " 项，"@ + dec(
            count_status(ts, TodoStatus::InProgress),
        ) + " 进行中，"@ + dec(count_status(ts, TodoStatus::Pending)) + " 待办，"@ + dec(
            count_status(ts, TodoStatus::Completed),
        ) + " 已完成）：\n"@ + todo_lines(ts);
        if full.len() > 0 && full.last() == '\n' {
            full.drop_last()
        } else {
            full
        }
    }
}

/// Icon of a status.
pub fn status_icon(s: TodoStatus) -> (r: &'static str)
    ensures
        r@ == status_icon_text(s),
{
    match s {
        TodoStatus::InProgress => "►",
        TodoStatus::Pending => "○",
        TodoStatus::Completed => "✓",
    }
}

/// Label of a priority.
pub fn priority_label(p: TodoPriority) -> (r: &'static str)
    ensures
        r@ == priority_text(p),
{
    match p {
        TodoPriority::High => "高",
        TodoPriority::Medium => "中",
        TodoPriority::Low => "低",
    }
}

/// Label of a status, as it is written in arguments.
pub fn status_label(s: TodoStatus) -> (r: &'static str)
    ensures
        r@ == status_text(s),
{
    match s {
        TodoStatus::InProgress => "in_progress",
        TodoStatus::Pending => "pending",
        TodoStatus::Completed => "completed",
    }
}

fn push_text(out: &mut Vec<char>, s: &str)
    ensures
        final(out)@ == old(out)@ + s@,
{
    let c = chars_of(s);
    extend_chars(out, &c);
}

fn push_number(out: &mut Vec<char>, n: usize)
    ensures
        final(out)@ == old(out)@ + dec(n as nat),
{
    let d = dec_chars(n as u64);
    extend_chars(out, &d);
}

fn push_line(body: &mut Vec<char>, t: &TodoItem)
    ensures
        final(body)@ == old(body)@ + todo_line(t@),
{
    push_text(body, status_icon(t.status));
    push_text(body, " [");
    push_text(body, priority_label(t.priority));
    push_text(body, "] ");
    push_text(body, t.id.as_str());
    push_text(body, ". ");
    push_text(body, t.content.as_str());
    push_text(body, " (");
    push_text(body, status_label(t.status));
    push_text(body, ")");
    if t.status == TodoStatus::Completed {
        match &t.summary {
            Some(s) => {
                push_text(body, " - ");
                push_text(body, s.as_str());
            },
            None => {},
        }
    }
    push_text(body, "\n");
    assert(body@ =~= old(body)@ + todo_line(t@));
}

proof fn lemma_count_le(ts: Seq<TodoModel>, s: TodoStatus)
    ensures
        count_status(ts, s) <= ts.len(),
    decreases ts.len(),
{
    if ts.len() > 0 {
        lemma_count_le(ts.drop_last(), s);
    }
}

/// Renders the list for the model (see `todo_text`).
pub fn format_todos(list: &Vec<TodoItem>) -> (r: String)
    ensures
        r@ == todo_text(todo_views(list@)),
{
    let ghost lv = todo_views(list@);
    if list.len() == 0 {
        return "待办列表为空。".to_string();
    }
    let mut body: Vec<char> = Vec::new();
    let mut n_ip: usize = 0;
    let mut n_p: usize = 0;
    let mut n_c: usize = 0;
    let mut i: usize = 0;
    while i < list.len()
        invariant
            i <= list.len(),
            lv == todo_views(list@),
            body@ == todo_lines(lv.subrange(0, i as int)),
            n_ip == count_status(lv.subrange(0, i as int), TodoStatus::InProgress),
            n_p == count_status(lv.subrange(0, i as int), TodoStatus::Pending),
            n_c == count_status(lv.subrange(0, i as int), TodoStatus::Completed),
        decreases list.len() - i,
    {
        let t = &list[i];
        let ghost pre = lv.subrange(0, i as int);
        assert(lv.subrange(0, i + 1).drop_last() =~= pre);
        assert(lv.subrange(0, i + 1).last() == t@);
        proof {
            lemma_count_le(pre, TodoStatus::InProgress);
            lemma_count_le(pre, TodoStatus::Pending);
            lemma_count_le(pre, TodoStatus::Completed);
        }
        match t.status {
            TodoStatus::InProgress => {
                n_ip = n_ip + 1;
            },
            TodoStatus::Pending => {
                n_p = n_p + 1;
            },
            TodoStatus::Completed => {
                n_c = n_c + 1;
            },
        }
        push_line(&mut body, t);
        i = i + 1;
    }
    assert(lv.subrange(0, lv.len() as int) =~= lv);
    let mut out: Vec<char> = Vec::new();
    push_text(&mut out, "待办列表（共 ");
    push_number(&mut out, list.len());
    push_text(&mut out, " 项，");
    push_number(&mut out, n_ip);
    push_text(&mut out, " 进行中，");
    push_number(&mut out, n_p);
    push_text(&mut out, " 待办，");
    push_number(&mut out, n_c);
    push_text(&mut out, " 已完成）：\n");
    extend_chars(&mut out, &body);
    let ghost full = out@;
    if out.len() > 0 && out[out.len() - 1] == '\n' {
        out.pop();
        assert(out@ =~= full.drop_last());
    }
    string_of(&out)
}

} // verus!

verus! {

/// Every incoming item has content besides white space.
pub open spec fn incoming_valid(ts: Seq<TodoModel>) -> bool {
    forall|i: int| 0 <= i < ts.len() ==> trim((#[trigger] ts[i]).content).len() > 0
}

/// The list after a write of `incoming` onto `existing`: empty ids filled,
/// merged by id or replacing the list, summaries of unfinished items dropped,
/// one item left in progress, and sorted.
pub open spec fn written_list(existing: Seq<TodoModel>, incoming: Seq<TodoModel>, merge: bool) -> Seq<
    TodoModel,
> {
    stable_sorted(corrected_write(existing, incoming, merge))
}

/// The list after a write, before it is sorted: empty ids filled, merged by
/// id or replacing the list, summaries of unfinished items dropped, and one
/// item left in progress.
pub open spec fn corrected_write(existing: Seq<TodoModel>, incoming: Seq<TodoModel>, merge: bool) -> Seq<
    TodoModel,
> {
    let inc = filled(incoming, first_free_id(existing, incoming));
    let base = if merge {
        merged(existing, inc)
    } else {
        inc
    };
    in_progress_corrected(base.map_values(|t: TodoModel| summary_normalized(t)))
}

/// Applies a write to the current list: refuses it when an item's content is
/// blank, else returns the new list and the text shown for it.
pub fn apply_todo_write(existing: &Vec<TodoItem>, args: TodoWriteArgs) -> (r: Result<
    (Vec<TodoItem>, String),
    TodoWriteError,
>)
    ensures
        r is Ok <==> incoming_valid(todo_views(args.todos@)),
        r matches Ok((l, s)) ==> todo_views(l@) == written_list(
            todo_views(existing@),
            todo_views(args.todos@),
            args.merge == Some(true),
        ) && s@ == todo_text(todo_views(l@)),
        r matches Err(e) ==> e.0@ == "待办项 content 不能为空"@,
{
    let ghost iv = todo_views(args.todos@);
    let mut k: usize = 0;
    while k < args.todos.len()
        invariant
            k <= args.todos.len(),
            iv == todo_views(args.todos@),
            forall|i: int| 0 <= i < k ==> trim((#[trigger] iv[i]).content).len() > 0,
        decreases args.todos.len() - k,
    {
        let cs = chars_of(args.todos[k].content.as_str());
        let t = trim_chars(&cs);
        assert(iv[k as int].content == cs@);
        if t.len() == 0 {
            return Err(TodoWriteError("待办项 content 不能为空".to_string()));
        }
        k = k + 1;
    }
    let merge = match args.merge {
        Some(b) => b,
        None => false,
    };
    let mut incoming = args.todos;
    fill_empty_ids(existing, &mut incoming);
    let mut list = if merge {
        merge_into(existing, incoming)
    } else {
        incoming
    };
    normalize_summaries(&mut list);
    auto_correct_in_progress(&mut list);
    sort_todos(&mut list);
    let text = format_todos(&list);
    Ok((list, text))
}

} // verus!

verus! {

proof fn lemma_insert_count(s: Seq<TodoModel>, x: TodoModel, st: TodoStatus)
    ensures
        count_status(insert_stable(s, x), st) == count_status(s, st) + if x.status == st {
            1nat
        } else {
            0nat
        },
    decreases s.len(),
{
    if s.len() > 0 && sort_key(s.last()) > sort_key(x) {
        lemma_insert_count(s.drop_last(), x, st);
        let r = insert_stable(s.drop_last(), x).push(s.last());
        assert(insert_stable(s, x) == r);
        assert(r.drop_last() =~= insert_stable(s.drop_last(), x));
        assert(r.last() == s.last());
        assert(count_status(r, st) == count_status(insert_stable(s.drop_last(), x), st) + if s.last().status == st {
            1nat
        } else {
            0nat
        });
    } else if s.len() == 0 {
        assert(insert_stable(s, x) == seq![x]);
        assert(seq![x].drop_last() =~= Seq::<TodoModel>::empty());
        assert(count_status(Seq::<TodoModel>::empty(), st) == 0);
        assert(seq![x].last() == x);
    } else {
        assert(insert_stable(s, x) == s.push(x));
        assert(s.push(x).drop_last() =~= s);
        assert(s.push(x).last() == x);
    }
}

proof fn lemma_sorted_count(ts: Seq<TodoModel>, st: TodoStatus)
    ensures
        count_status(stable_sorted(ts), st) == count_status(ts, st),
    decreases ts.len(),
{
    if ts.len() > 0 {
        lemma_sorted_count(ts.drop_last(), st);
        lemma_insert_count(stable_sorted(ts.drop_last()), ts.last(), st);
    }
}

proof fn lemma_insert_members(s: Seq<TodoModel>, x: TodoModel)
    ensures
        insert_stable(s, x).len() == s.len() + 1,
        forall|k: int|
            0 <= k < insert_stable(s, x).len() ==> #[trigger] insert_stable(s, x)[k] == x
                || s.contains(insert_stable(s, x)[k]),
    decreases s.len(),
{
    if s.len() > 0 && sort_key(s.last()) > sort_key(x) {
        let d = s.drop_last();
        lemma_insert_members(d, x);
        let r = insert_stable(s, x);
        assert forall|k: int| 0 <= k < r.len() implies #[trigger] r[k] == x || s.contains(r[k]) by {
            if k < r.len() - 1 {
                assert(r[k] == insert_stable(d, x)[k]);
                if insert_stable(d, x)[k] != x {
                    let w = choose|w: int| 0 <= w < d.len() && d[w] == insert_stable(d, x)[k];
                    assert(s[w] == d[w]);
                }
            } else {
                assert(s[s.len() - 1] == r[k]);
            }
        }
    } else if s.len() > 0 {
        let r = s.push(x);
        assert forall|k: int| 0 <= k < r.len() implies #[trigger] r[k] == x || s.contains(r[k]) by {
            if k < s.len() {
                assert(s[k] == r[k]);
            }
        }
    }
}

proof fn lemma_sorted_members(ts: Seq<TodoModel>)
    ensures
        stable_sorted(ts).len() == ts.len(),
        forall|k: int|
            0 <= k < stable_sorted(ts).len() ==> ts.contains(#[trigger] stable_sorted(ts)[k]),
    decreases ts.len(),
{
    if ts.len() > 0 {
        let d = ts.drop_last();
        lemma_sorted_members(d);
        lemma_insert_members(stable_sorted(d), ts.last());
        let r = stable_sorted(ts);
        assert forall|k: int| 0 <= k < r.len() implies ts.contains(#[trigger] r[k]) by {
            if r[k] == ts.last() {
                assert(ts[ts.len() - 1] == r[k]);
            } else {
                let w = choose|w: int|
                    0 <= w < stable_sorted(d).len() && stable_sorted(d)[w] == r[k];
                let v = choose|v: int| 0 <= v < d.len() && d[v] == stable_sorted(d)[w];
                assert(ts[v] == d[v]);
            }
        }
    }
}

proof fn lemma_insert_sorted(s: Seq<TodoModel>, x: TodoModel)
    requires
        forall|i: int, j: int| 0 <= i < j < s.len() ==> sort_key(s[i]) <= sort_key(s[j]),
    ensures
        forall|i: int, j: int|
            0 <= i < j < insert_stable(s, x).len() ==> sort_key(insert_stable(s, x)[i]) <= sort_key(
                insert_stable(s, x)[j],
            ),
        s.len() > 0 ==> insert_stable(s, x).last() == s.last() || insert_stable(s, x).last() == x,
        s.len() > 0 ==> sort_key(insert_stable(s, x).last()) >= sort_key(s.last()),
    decreases s.len(),
{
    lemma_insert_members(s, x);
    if s.len() > 0 && sort_key(s.last()) > sort_key(x) {
        let d = s.drop_last();
        lemma_insert_sorted(d, x);
        lemma_insert_members(d, x);
        let m = insert_stable(d, x);
        let r = m.push(s.last());
        assert forall|i: int, j: int| 0 <= i < j < r.len() implies sort_key(r[i]) <= sort_key(
            r[j],
        ) by {
            if j == r.len() - 1 {
                assert(r[i] == m[i]);
                if m[i] != x {
                    let w = choose|w: int| 0 <= w < d.len() && d[w] == m[i];
                    assert(d[w] == s[w]);
                }
            } else {
                assert(r[i] == m[i] && r[j] == m[j]);
            }
        }
    } else if s.len() > 0 {
        let r = s.push(x);
        assert forall|i: int, j: int| 0 <= i < j < r.len() implies sort_key(r[i]) <= sort_key(
            r[j],
        ) by {
            if j < s.len() {
                assert(r[i] == s[i] && r[j] == s[j]);
            } else {
                assert(r[i] == s[i]);
                assert(s[s.len() - 1] == s.last());
            }
        }
    }
}

proof fn lemma_sorted_order(ts: Seq<TodoModel>)
    ensures
        forall|i: int, j: int|
            0 <= i < j < stable_sorted(ts).len() ==> sort_key(stable_sorted(ts)[i]) <= sort_key(
                stable_sorted(ts)[j],
            ),
    decreases ts.len(),
{
    if ts.len() > 0 {
        lemma_sorted_order(ts.drop_last());
        lemma_insert_sorted(stable_sorted(ts.drop_last()), ts.last());
    }
}

proof fn lemma_corrected_count(ts: Seq<TodoModel>)
    ensures
        count_status(in_progress_corrected(ts), TodoStatus::InProgress) == if has_in_progress(ts) {
            1nat
        } else {
            0nat
        },
    decreases ts.len(),
{
    if ts.len() > 0 {
        let d = ts.drop_last();
        let c = in_progress_corrected(ts);
        lemma_corrected_count(d);
        assert(c.drop_last() =~= in_progress_corrected(d)) by {
            assert forall|i: int| 0 <= i < d.len() implies c.drop_last()[i] == in_progress_corrected(
                d,
            )[i] by {
                assert(ts.subrange(0, i) =~= d.subrange(0, i));
            }
        }
        assert(ts.subrange(0, ts.len() - 1) =~= d);
        if has_in_progress(d) {
            let w = choose|j: int|
                0 <= j < d.len() && (#[trigger] d[j]).status == TodoStatus::InProgress;
            assert(ts[w] == d[w]);
        } else if has_in_progress(ts) {
            let w = choose|j: int|
                0 <= j < ts.len() && (#[trigger] ts[j]).status == TodoStatus::InProgress;
            if w < d.len() {
                assert(d[w] == ts[w]);
            }
        }
    }
}

/// The invariants every write restores: at most one item is in progress,
/// only completed items carry a summary, and the list is ordered by status
/// (in progress, pending, completed) and then priority.
pub proof fn lemma_written_list_invariants(
    existing: Seq<TodoModel>,
    incoming: Seq<TodoModel>,
    merge: bool,
)
    ensures
        count_status(written_list(existing, incoming, merge), TodoStatus::InProgress) <= 1,
        forall|k: int|
            0 <= k < written_list(existing, incoming, merge).len() ==> (#[trigger] written_list(
                existing,
                incoming,
                merge,
            )[k]).status != TodoStatus::Completed ==> written_list(existing, incoming, merge)[k].summary
                is None,
        forall|i: int, j: int|
            0 <= i < j < written_list(existing, incoming, merge).len() ==> sort_key(
                written_list(existing, incoming, merge)[i],
            ) <= sort_key(written_list(existing, incoming, merge)[j]),
        forall|key: nat|
            #[trigger] items_with_key(written_list(existing, incoming, merge), key) == items_with_key(
                corrected_write(existing, incoming, merge),
                key,
            ),
        (forall|i: int| 0 <= i < existing.len() ==> (#[trigger] existing[i]).id.len() > 0) ==> forall|k: int|
            0 <= k < written_list(existing, incoming, merge).len() ==> (#[trigger] written_list(
                existing,
                incoming,
                merge,
            )[k]).id.len() > 0,
{
    let inc = filled(incoming, first_free_id(existing, incoming));
    let base = if merge {
        merged(existing, inc)
    } else {
        inc
    };
    let norm = base.map_values(|t: TodoModel| summary_normalized(t));
    let cor = in_progress_corrected(norm);
    let r = stable_sorted(cor);
    lemma_corrected_count(norm);
    lemma_sorted_count(cor, TodoStatus::InProgress);
    lemma_sorted_order(cor);
    lemma_sorted_members(cor);
    assert forall|k: int| 0 <= k < r.len() && (#[trigger] r[k]).status != TodoStatus::Completed implies r[k].summary is None by {
        let w = choose|w: int| 0 <= w < cor.len() && cor[w] == r[k];
        assert(norm[w] == summary_normalized(base[w]));
    }
    lemma_sort_stable(cor);
    if forall|i: int| 0 <= i < existing.len() ==> (#[trigger] existing[i]).id.len() > 0 {
        lemma_filled_ids_nonempty(incoming, first_free_id(existing, incoming));
        if merge {
            lemma_merged_ids_nonempty(existing, inc);
        }
        assert forall|k: int| 0 <= k < r.len() implies (#[trigger] r[k]).id.len() > 0 by {
            let w = choose|w: int| 0 <= w < cor.len() && cor[w] == r[k];
            assert(norm[w] == summary_normalized(base[w]));
        }
    }
}

/// Merging keeps every id non-empty when both lists have only non-empty ids.
proof fn lemma_merged_ids_nonempty(list: Seq<TodoModel>, incoming: Seq<TodoModel>)
    requires
        forall|i: int| 0 <= i < list.len() ==> (#[trigger] list[i]).id.len() > 0,
        forall|i: int| 0 <= i < incoming.len() ==> (#[trigger] incoming[i]).id.len() > 0,
    ensures
        forall|i: int|
            0 <= i < merged(list, incoming).len() ==> (#[trigger] merged(list, incoming)[i]).id.len() > 0,
    decreases incoming.len(),
{
    if incoming.len() > 0 {
        let d = incoming.drop_last();
        assert forall|i: int| 0 <= i < d.len() implies (#[trigger] d[i]).id.len() > 0 by {
            assert(d[i] == incoming[i]);
        }
        lemma_merged_ids_nonempty(list, d);
        let m = merged(list, d);
        let x = incoming.last();
        assert(incoming[incoming.len() - 1] == x);
        lemma_first_with_id(m, x.id, 0);
        let r = merge_one(m, x);
        assert(merged(list, incoming) == r);
        assert forall|i: int| 0 <= i < r.len() implies (#[trigger] r[i]).id.len() > 0 by {
            if i < m.len() {
                assert(r[i] == x || r[i] == m[i]);
            }
        }
    }
}

/// The items of `ts` whose sort key is `key`, in their order.
pub open spec fn items_with_key(ts: Seq<TodoModel>, key: nat) -> Seq<TodoModel>
    decreases ts.len(),
{
    if ts.len() == 0 {
        Seq::empty()
    } else {
        let r = items_with_key(ts.drop_last(), key);
        if sort_key(ts.last()) == key {
            r.push(ts.last())
        } else {
            r
        }
    }
}

proof fn lemma_insert_keyed(s: Seq<TodoModel>, x: TodoModel, key: nat)
    ensures
        items_with_key(insert_stable(s, x), key) == if sort_key(x) == key {
            items_with_key(s, key).push(x)
        } else {
            items_with_key(s, key)
        },
    decreases s.len(),
{
    if s.len() == 0 {
        assert(seq![x].drop_last() =~= Seq::<TodoModel>::empty());
        assert(seq![x].last() == x);
        assert(items_with_key(Seq::<TodoModel>::empty(), key) =~= Seq::<TodoModel>::empty());
    } else if sort_key(s.last()) <= sort_key(x) {
        assert(s.push(x).drop_last() =~= s);
        assert(s.push(x).last() == x);
    } else {
        let d = s.drop_last();
        let m = insert_stable(d, x);
        lemma_insert_keyed(d, x, key);
        assert(m.push(s.last()).drop_last() =~= m);
        assert(m.push(s.last()).last() == s.last());
        assert(insert_stable(s, x) == m.push(s.last()));
        if sort_key(x) == key {
            assert(sort_key(s.last()) != key);
        }
    }
}

/// The sort is stable: for every key, the items with that key come out in
/// the order they went in.
pub proof fn lemma_sort_stable(ts: Seq<TodoModel>)
    ensures
        forall|key: nat| #[trigger] items_with_key(stable_sorted(ts), key) == items_with_key(ts, key),
    decreases ts.len(),
{
    if ts.len() > 0 {
        let d = ts.drop_last();
        lemma_sort_stable(d);
        assert forall|key: nat| #[trigger] items_with_key(stable_sorted(ts), key) == items_with_key(ts, key) by {
            lemma_insert_keyed(stable_sorted(d), ts.last(), key);
        }
    }
}

/// A merge leaves every current item that no incoming id names where it was,
/// unchanged, and only appends after them.
pub proof fn lemma_merge_keeps_unmentioned(list: Seq<TodoModel>, incoming: Seq<TodoModel>)
    ensures
        merged(list, incoming).len() >= list.len(),
        forall|i: int|
            0 <= i < list.len() && (forall|j: int|
                0 <= j < incoming.len() ==> (#[trigger] incoming[j]).id != list[i].id)
                ==> #[trigger] merged(list, incoming)[i] == list[i],
    decreases incoming.len(),
{
    if incoming.len() > 0 {
        let d = incoming.drop_last();
        lemma_merge_keeps_unmentioned(list, d);
        let m = merged(list, d);
        let x = incoming.last();
        assert(merged(list, incoming) == merge_one(m, x));
        lemma_first_with_id(m, x.id, 0);
        assert(merge_one(m, x).len() >= m.len());
        assert forall|i: int|
            0 <= i < list.len() && (forall|j: int|
                0 <= j < incoming.len() ==> (#[trigger] incoming[j]).id != list[i].id)
                implies #[trigger] merged(list, incoming)[i] == list[i] by {
            assert forall|j: int| 0 <= j < d.len() implies (#[trigger] d[j]).id != list[i].id by {
                assert(d[j] == incoming[j]);
            }
            assert(incoming[incoming.len() - 1] == x);
            match first_with_id(m, x.id, 0) {
                Some(p) => {
                    lemma_first_with_id(m, x.id, 0);
                    assert(p != i);
                },
                None => {},
            }
        }
    }
}

proof fn lemma_first_with_id(list: Seq<TodoModel>, id: Seq<char>, from: int)
    requires
        0 <= from,
    ensures
        first_with_id(list, id, from) matches Some(p) ==> from <= p < list.len() && list[p].id == id,
    decreases list.len() - from,
{
    if from < list.len() && list[from].id != id {
        lemma_first_with_id(list, id, from + 1);
    }
}

/// After filling, no item has an empty id.
pub proof fn lemma_filled_ids_nonempty(ts: Seq<TodoModel>, next: nat)
    ensures
        filled(ts, next).len() == ts.len(),
        forall|k: int| 0 <= k < ts.len() ==> (#[trigger] filled(ts, next)[k]).id.len() > 0,
    decreases ts.len(),
{
    if ts.len() > 0 {
        lemma_filled_ids_nonempty(ts.drop_first(), sat_next(next));
        lemma_filled_ids_nonempty(ts.drop_first(), next);
        crate::text::lemma_dec_len_pos(next);
        let f = filled(ts, next);
        assert forall|k: int| 0 <= k < ts.len() implies (#[trigger] filled(ts, next)[k]).id.len()
            > 0 by {
            if k > 0 {
                if ts[0].id.len() == 0 {
                    assert(f[k] == filled(ts.drop_first(), sat_next(next))[k - 1]);
                } else {
                    assert(f[k] == filled(ts.drop_first(), next)[k - 1]);
                }
            }
        }
    }
}

/// How many of the first `k` items have an empty id.
pub open spec fn empties_before(ts: Seq<TodoModel>, k: int) -> nat
    decreases k,
{
    if k <= 0 {
        0
    } else {
        empties_before(ts, k - 1) + if ts[k - 1].id.len() == 0 {
            1nat
        } else {
            0nat
        }
    }
}

proof fn lemma_empties_shift(ts: Seq<TodoModel>, k: int)
    requires
        1 <= k <= ts.len(),
    ensures
        empties_before(ts, k) == (if ts[0].id.len() == 0 { 1nat } else { 0nat }) + empties_before(
            ts.drop_first(),
            k - 1,
        ),
    decreases k,
{
    if k > 1 {
        lemma_empties_shift(ts, k - 1);
        assert(ts.drop_first()[k - 2] == ts[k - 1]);
    } else {
        assert(empties_before(ts, 0) == 0);
        assert(empties_before(ts.drop_first(), 0) == 0);
    }
}

proof fn lemma_empties_bounds(ts: Seq<TodoModel>, a: int, b: int)
    requires
        0 <= a <= b <= ts.len(),
    ensures
        empties_before(ts, a) <= empties_before(ts, b),
        empties_before(ts, b) <= b,
        a < b && ts[a].id.len() == 0 ==> empties_before(ts, a) < empties_before(ts, b),
    decreases b - a,
{
    if a < b {
        lemma_empties_bounds(ts, a, b - 1);
        if a == b - 1 {
        }
    } else {
        lemma_empties_le(ts, b);
    }
}

proof fn lemma_empties_le(ts: Seq<TodoModel>, b: int)
    requires
        0 <= b <= ts.len(),
    ensures
        empties_before(ts, b) <= b,
    decreases b,
{
    if b > 0 {
        lemma_empties_le(ts, b - 1);
    }
}

proof fn lemma_filled_at(ts: Seq<TodoModel>, next: nat)
    requires
        next + ts.len() <= u64::MAX,
    ensures
        filled(ts, next).len() == ts.len(),
        forall|k: int|
            0 <= k < ts.len() ==> #[trigger] filled(ts, next)[k] == if ts[k].id.len() == 0 {
                with_id(ts[k], dec(next + empties_before(ts, k)))
            } else {
                ts[k]
            },
    decreases ts.len(),
{
    if ts.len() > 0 {
        let t = ts.drop_first();
        let nx = if ts[0].id.len() == 0 { sat_next(next) } else { next };
        lemma_filled_at(t, nx);
        let f = filled(ts, next);
        assert forall|k: int| 0 <= k < ts.len() implies #[trigger] filled(ts, next)[k] == if ts[k].id.len()
            == 0 {
            with_id(ts[k], dec(next + empties_before(ts, k)))
        } else {
            ts[k]
        } by {
            if k > 0 {
                assert(f[k] == filled(t, nx)[k - 1]);
                assert(t[k - 1] == ts[k]);
                lemma_empties_shift(ts, k);
            }
        }
    }
}

proof fn lemma_max_id_bound(ts: Seq<TodoModel>, i: int)
    requires
        0 <= i < ts.len(),
    ensures
        id_number(ts[i].id) <= max_id(ts),
    decreases ts.len(),
{
    if i < ts.len() - 1 {
        lemma_max_id_bound(ts.drop_last(), i);
    }
}

/// The ids handed to items without one are fresh: each is a number above
/// every numeric id of the current list and of the incoming items, so it
/// equals none of their ids, and no two handed-out ids are equal. Items that
/// had an id keep it, and no other field changes. (Stated for the case where
/// the numbers do not run past the largest `u64`.)
pub proof fn lemma_filled_ids_fresh(existing: Seq<TodoModel>, incoming: Seq<TodoModel>)
    requires
        first_free_id(existing, incoming) + incoming.len() <= u64::MAX,
    ensures
        ({
            let out = filled(incoming, first_free_id(existing, incoming));
            &&& out.len() == incoming.len()
            &&& forall|k: int| 0 <= k < incoming.len() && incoming[k].id.len() > 0 ==> #[trigger] out[k] == incoming[k]
            &&& forall|k: int| 0 <= k < incoming.len() && incoming[k].id.len() == 0 ==> #[trigger] out[k] == with_id(incoming[k], out[k].id)
            &&& forall|k: int, e: int| 0 <= k < incoming.len() && incoming[k].id.len() == 0 && 0 <= e < existing.len() ==> #[trigger] out[k].id != #[trigger] existing[e].id
            &&& forall|k: int, j: int| 0 <= k < incoming.len() && 0 <= j < incoming.len() && k != j && incoming[k].id.len() == 0 ==> #[trigger] out[k].id != #[trigger] out[j].id
        }),
{
    let f = first_free_id(existing, incoming);
    let out = filled(incoming, f);
    lemma_filled_at(incoming, f);
    assert forall|k: int| 0 <= k < incoming.len() && incoming[k].id.len() == 0 implies id_number(#[trigger] out[k].id) == f + empties_before(incoming, k) by {
        lemma_empties_bounds(incoming, k, incoming.len() as int);
        crate::text::lemma_parse_dec(f + empties_before(incoming, k));
    }
    assert forall|k: int, e: int| 0 <= k < incoming.len() && incoming[k].id.len() == 0 && 0 <= e < existing.len() implies #[trigger] out[k].id != #[trigger] existing[e].id by {
        assert(id_number(out[k].id) == f + empties_before(incoming, k));
        lemma_max_id_bound(existing, e);
    }
    assert forall|k: int, j: int| 0 <= k < incoming.len() && 0 <= j < incoming.len() && k != j && incoming[k].id.len() == 0 implies #[trigger] out[k].id != #[trigger] out[j].id by {
        assert(id_number(out[k].id) == f + empties_before(incoming, k));
        if incoming[j].id.len() == 0 {
            assert(id_number(out[j].id) == f + empties_before(incoming, j));
            if k < j {
                lemma_empties_bounds(incoming, k, j);
            } else {
                lemma_empties_bounds(incoming, j, k);
            }
        } else {
            assert(out[j] == incoming[j]);
            lemma_max_id_bound(incoming, j);
        }
    }
}

} // verus!

verus! {

/// Some item of `ts` has id `id`.
pub open spec fn has_id(ts: Seq<TodoModel>, id: Seq<char>) -> bool {
    exists|k: int| 0 <= k < ts.len() && (#[trigger] ts[k]).id == id
}

proof fn lemma_insert_contains(s: Seq<TodoModel>, x: TodoModel)
    ensures
        insert_stable(s, x).contains(x),
        forall|k: int| 0 <= k < s.len() ==> insert_stable(s, x).contains(#[trigger] s[k]),
    decreases s.len(),
{
    let r = insert_stable(s, x);
    if s.len() == 0 {
        assert(r[0] == x);
    } else if sort_key(s.last()) <= sort_key(x) {
        assert(r[s.len() as int] == x);
        assert forall|k: int| 0 <= k < s.len() implies r.contains(#[trigger] s[k]) by {
            assert(r[k] == s[k]);
        }
    } else {
        let d = s.drop_last();
        let m = insert_stable(d, x);
        lemma_insert_contains(d, x);
        assert(r == m.push(s.last()));
        let w = choose|w: int| 0 <= w < m.len() && m[w] == x;
        assert(r[w] == x);
        assert forall|k: int| 0 <= k < s.len() implies r.contains(#[trigger] s[k]) by {
            if k == s.len() - 1 {
                assert(r[m.len() as int] == s[k]);
            } else {
                assert(d[k] == s[k]);
                let v = choose|v: int| 0 <= v < m.len() && m[v] == d[k];
                assert(r[v] == s[k]);
            }
        }
    }
}

proof fn lemma_sorted_contains(ts: Seq<TodoModel>)
    ensures
        forall|k: int| 0 <= k < ts.len() ==> stable_sorted(ts).contains(#[trigger] ts[k]),
    decreases ts.len(),
{
    if ts.len() > 0 {
        let d = ts.drop_last();
        lemma_sorted_contains(d);
        let sd = stable_sorted(d);
        lemma_insert_contains(sd, ts.last());
        let r = stable_sorted(ts);
        assert forall|k: int| 0 <= k < ts.len() implies r.contains(#[trigger] ts[k]) by {
            if k == ts.len() - 1 {
            } else {
                assert(d[k] == ts[k]);
                let v = choose|v: int| 0 <= v < sd.len() && sd[v] == d[k];
                assert(insert_stable(sd, ts.last()).contains(sd[v]));
            }
        }
    }
}

proof fn lemma_merged_has_id(list: Seq<TodoModel>, incoming: Seq<TodoModel>, id: Seq<char>)
    ensures
        has_id(merged(list, incoming), id) <==> has_id(list, id) || has_id(incoming, id),
    decreases incoming.len(),
{
    if incoming.len() > 0 {
        let d = incoming.drop_last();
        let x = incoming.last();
        lemma_merged_has_id(list, d, id);
        let m = merged(list, d);
        lemma_first_with_id(m, x.id, 0);
        let r = merge_one(m, x);
        assert(merged(list, incoming) == r);
        assert(incoming[incoming.len() - 1] == x);
        if has_id(incoming, id) && !has_id(d, id) {
            let k = choose|k: int| 0 <= k < incoming.len() && (#[trigger] incoming[k]).id == id;
            if k < d.len() {
                assert(d[k] == incoming[k]);
            }
        }
        if has_id(d, id) {
            let k = choose|k: int| 0 <= k < d.len() && (#[trigger] d[k]).id == id;
            assert(incoming[k] == d[k]);
        }
        match first_with_id(m, x.id, 0) {
            Some(p) => {
                assert(r[p] == x);
                if has_id(m, id) {
                    let k = choose|k: int| 0 <= k < m.len() && (#[trigger] m[k]).id == id;
                    if k != p {
                        assert(r[k] == m[k]);
                    } else {
                        assert(r[p].id == id);
                    }
                }
                if has_id(r, id) {
                    let k = choose|k: int| 0 <= k < r.len() && (#[trigger] r[k]).id == id;
                    if k != p {
                        assert(r[k] == m[k]);
                    } else {
                        assert(m[p].id == id);
                    }
                }
            },
            None => {
                assert(r[m.len() as int] == x);
                if has_id(m, id) {
                    let k = choose|k: int| 0 <= k < m.len() && (#[trigger] m[k]).id == id;
                    assert(r[k] == m[k]);
                }
                if has_id(r, id) {
                    let k = choose|k: int| 0 <= k < r.len() && (#[trigger] r[k]).id == id;
                    if k < m.len() {
                        assert(r[k] == m[k]);
                    }
                }
            },
        }
    }
}

/// `a` may come before `b`: its status comes first, or the statuses agree
/// and its priority is not lower.
pub open spec fn listed_in_order(a: TodoModel, b: TodoModel) -> bool {
    status_order(a.status) < status_order(b.status) || (status_order(a.status) == status_order(b.status)
        && priority_order(a.priority) <= priority_order(b.priority))
}

/// The written list is sorted by status (in progress, pending, completed)
/// and then by priority (high, medium, low), and the sort is stable: items
/// of equal status and priority keep the order they had before sorting.
pub proof fn lemma_written_list_sorted(existing: Seq<TodoModel>, incoming: Seq<TodoModel>, merge: bool)
    ensures
        forall|i: int, j: int|
            0 <= i < j < written_list(existing, incoming, merge).len() ==> #[trigger] listed_in_order(
                written_list(existing, incoming, merge)[i],
                written_list(existing, incoming, merge)[j],
            ),
        forall|key: nat|
            #[trigger] items_with_key(written_list(existing, incoming, merge), key) == items_with_key(
                corrected_write(existing, incoming, merge),
                key,
            ),
{
    lemma_written_list_invariants(existing, incoming, merge);
    let w = written_list(existing, incoming, merge);
    assert forall|i: int, j: int| 0 <= i < j < w.len() implies #[trigger] listed_in_order(w[i], w[j]) by {
        assert(sort_key(w[i]) <= sort_key(w[j]));
    }
}

/// Every id of the written list is non-empty when every current id is; and
/// its ids are those of the incoming items (empty ids filled in), together
/// with those of the current list when the write merges.
pub proof fn lemma_written_list_ids(existing: Seq<TodoModel>, incoming: Seq<TodoModel>, merge: bool)
    ensures
        (forall|i: int| 0 <= i < existing.len() ==> (#[trigger] existing[i]).id.len() > 0) ==> forall|k: int|
            0 <= k < written_list(existing, incoming, merge).len() ==> (#[trigger] written_list(
                existing,
                incoming,
                merge,
            )[k]).id.len() > 0,
        forall|id: Seq<char>|
            #[trigger] has_id(written_list(existing, incoming, merge), id) <==> (merge && has_id(existing, id))
                || has_id(filled(incoming, first_free_id(existing, incoming)), id),
{
    lemma_written_list_invariants(existing, incoming, merge);
    let inc = filled(incoming, first_free_id(existing, incoming));
    let base = if merge {
        merged(existing, inc)
    } else {
        inc
    };
    let norm = base.map_values(|t: TodoModel| summary_normalized(t));
    let cor = in_progress_corrected(norm);
    let w = stable_sorted(cor);
    lemma_sorted_members(cor);
    lemma_sorted_contains(cor);
    assert forall|id: Seq<char>| #[trigger] has_id(w, id) <==> (merge && has_id(existing, id)) || has_id(inc, id) by {
        if merge {
            lemma_merged_has_id(existing, inc, id);
        }
        if has_id(w, id) {
            let k = choose|k: int| 0 <= k < w.len() && (#[trigger] w[k]).id == id;
            let v = choose|v: int| 0 <= v < cor.len() && cor[v] == w[k];
            assert(norm[v] == summary_normalized(base[v]));
            assert(base[v].id == id);
        }
        if has_id(base, id) {
            let v = choose|v: int| 0 <= v < base.len() && (#[trigger] base[v]).id == id;
            assert(norm[v] == summary_normalized(base[v]));
            assert(cor[v].id == id);
            let k = choose|k: int| 0 <= k < w.len() && w[k] == cor[v];
            assert(w[k].id == id);
        }
    }
}

} // verus!

verus! {

proof fn lemma_count_is_filter(ts: Seq<TodoModel>, s: TodoStatus)
    ensures
        count_status(ts, s) == ts.filter(|t: TodoModel| t.status == s).len(),
    decreases ts.len(),
{
    reveal(Seq::filter);
    if ts.len() > 0 {
        lemma_count_is_filter(ts.drop_last(), s);
    }
}

proof fn lemma_counts_sum(ts: Seq<TodoModel>)
    ensures
        count_status(ts, TodoStatus::InProgress) + count_status(ts, TodoStatus::Pending) + count_status(
            ts,
            TodoStatus::Completed,
        ) == ts.len(),
    decreases ts.len(),
{
    if ts.len() > 0 {
        lemma_counts_sum(ts.drop_last());
    }
}

proof fn lemma_todo_lines_nonempty(ts: Seq<TodoModel>)
    requires
        ts.len() > 0,
    ensures
        todo_lines(ts).len() > 0,
{
    assert(todo_lines(ts) == todo_lines(ts.drop_last()) + todo_line(ts.last()));
    reveal_strlit("\n");
    assert(todo_line(ts.last()).len() > 0);
}

/// The header of a non-empty list counts its items: the total, then how
/// many are in progress, pending and completed, each the number of items
/// with that status, the three adding up to the total.
pub proof fn lemma_todo_header_counts(ts: Seq<TodoModel>)
    requires
        ts.len() > 0,
    ensures
        ts.filter(|t: TodoModel| t.status == TodoStatus::InProgress).len() + ts.filter(
            |t: TodoModel| t.status == TodoStatus::Pending,
        ).len() + ts.filter(|t: TodoModel| t.status == TodoStatus::Completed).len() == ts.len(),
        ({
            let h = "待办列表（共 "@ + dec(ts.len()) + " 项，"@ + dec(
                ts.filter(|t: TodoModel| t.status == TodoStatus::InProgress).len(),
            ) + " 进行中，"@ + dec(ts.filter(|t: TodoModel| t.status == TodoStatus::Pending).len()) + " 待办，"@
                + dec(ts.filter(|t: TodoModel| t.status == TodoStatus::Completed).len()) + " 已完成）：\n"@;
            h.len() <= todo_text(ts).len() && todo_text(ts).subrange(0, h.len() as int) == h
        }),
{
    lemma_count_is_filter(ts, TodoStatus::InProgress);
    lemma_count_is_filter(ts, TodoStatus::Pending);
    lemma_count_is_filter(ts, TodoStatus::Completed);
    lemma_counts_sum(ts);
    lemma_todo_lines_nonempty(ts);
    let h = "待办列表（共 "@ + dec(ts.len()) + " 项，"@ + dec(count_status(ts, TodoStatus::InProgress)) + " 进行中，"@
        + dec(count_status(ts, TodoStatus::Pending)) + " 待办，"@ + dec(count_status(ts, TodoStatus::Completed))
        + " 已完成）：\n"@;
    let full = h + todo_lines(ts);
    assert(full.len() > h.len());
    if full.last() == '\n' {
        assert(full.drop_last().subrange(0, h.len() as int) =~= h);
    } else {
        assert(full.subrange(0, h.len() as int) =~= h);
    }
}

} // verus!
