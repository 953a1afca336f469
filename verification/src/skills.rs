//! Installed skills: the record, how one is made from a `SKILL.md` found in
//! a directory or installed from ClawHub, and how an id is matched.

use vstd::prelude::*;
use crate::clawhub::{parse_skill_md, skill_md};
use crate::text::{chars_of, has_prefix, starts_with, str_cat, string_of};

verus! {

/// An installed skill.
#[derive(Debug, Clone)]
pub struct Skill {
    pub id: String,
    pub name: String,
    pub description: String,
    /// The instructions injected into a conversation.
    pub preamble: String,
    pub tools: Vec<String>,
    /// The directory holding the skill's files.
    pub working_dir: Option<String>,
    pub created_at: u64,
    pub builtin: bool,
    /// `clawhub` or `directory` for skills from outside.
    pub source: Option<String>,
    pub source_slug: Option<String>,
    pub source_owner: Option<String>,
    pub source_version: Option<String>,
}

/// `given` unless it is empty, else `fallback`.
pub open spec fn or_else(given: Seq<char>, fallback: Seq<char>) -> Seq<char> {
    if given.len() == 0 { fallback } else { given }
}

/// `Some(s)` unless `s` is empty.
pub open spec fn non_empty(s: Seq<char>) -> Option<Seq<char>> {
    if s.len() == 0 { None } else { Some(s) }
}

pub open spec fn opt_view(o: Option<String>) -> Option<Seq<char>> {
    match o {
        Some(s) => Some(s@),
        None => None,
    }
}

fn or_else_string(given: String, fallback: &str) -> (r: String)
    ensures
        r@ == or_else(given@, fallback@),
{
    if given.as_str().is_empty() {
        fallback.to_string()
    } else {
        given
    }
}

fn non_empty_string(s: String) -> (r: Option<String>)
    ensures
        opt_view(r) == non_empty(s@),
{
    if s.as_str().is_empty() {
        None
    } else {
        Some(s)
    }
}

/// A skill found in directory `slug` under an external root: named and
/// described by its `SKILL.md` (the directory name where it says nothing),
/// its body as instructions, marked as coming from a directory.
pub fn external_skill(slug: &str, skill_md_text: &str, working_dir: String, root_name: &str, created_at: u64) -> (s: Skill)
    ensures
        s.id@ == slug@,
        s.name@ == or_else(skill_md(skill_md_text@).name, slug@),
        s.description@ == or_else(skill_md(skill_md_text@).description, slug@),
        s.preamble@ == skill_md(skill_md_text@).body,
        s.tools@.len() == 0,
        s.working_dir == Some(working_dir),
        opt_view(s.source) == Some("directory"@),
        opt_view(s.source_slug) == Some(slug@),
        opt_view(s.source_owner) == Some(root_name@),
        opt_view(s.source_version) == non_empty(skill_md(skill_md_text@).version),
        s.created_at == created_at,
        !s.builtin,
{
    let p = parse_skill_md(skill_md_text);
    Skill {
        id: slug.to_string(),
        name: or_else_string(p.name, slug),
        description: or_else_string(p.description, slug),
        preamble: p.body,
        tools: Vec::new(),
        working_dir: Some(working_dir),
        created_at,
        builtin: false,
        source: Some("directory".to_string()),
        source_slug: Some(slug.to_string()),
        source_owner: Some(root_name.to_string()),
        source_version: non_empty_string(p.version),
    }
}

/// The fallback description of a ClawHub skill.
pub open spec fn clawhub_description(slug: Seq<char>) -> Seq<char> {
    "ClawHub 技能: "@ + slug
}

/// `s` is the skill installed from ClawHub for `slug` into directory `dest`:
/// named, described and versioned by its `SKILL.md` text `md` when one was
/// read (the slug, a generic description and the listed `version`
/// otherwise), with the body as instructions.
pub open spec fn is_clawhub_skill(
    s: Skill,
    slug: Seq<char>,
    md: Option<Seq<char>>,
    version: Seq<char>,
    owner_handle: Seq<char>,
    dest: Seq<char>,
    created_at: u64,
) -> bool {
    &&& s.id@ == slug
    &&& match md {
        Some(t) => {
            &&& s.name@ == or_else(skill_md(t).name, slug)
            &&& s.description@ == or_else(skill_md(t).description, clawhub_description(slug))
            &&& s.preamble@ == skill_md(t).body
            &&& opt_view(s.source_version) == non_empty(or_else(skill_md(t).version, version))
        },
        None => {
            &&& s.name@ == slug
            &&& s.description@ == clawhub_description(slug)
            &&& s.preamble@.len() == 0
            &&& opt_view(s.source_version) == non_empty(version)
        },
    }
    &&& s.tools@.len() == 0
    &&& opt_view(s.working_dir) == Some(dest)
    &&& opt_view(s.source) == Some("clawhub"@)
    &&& opt_view(s.source_slug) == Some(slug)
    &&& opt_view(s.source_owner) == non_empty(owner_handle)
    &&& s.created_at == created_at
    &&& !s.builtin
}

/// A skill installed from ClawHub into `dest_dir` (see `is_clawhub_skill`).
pub fn clawhub_skill(
    slug: &str,
    skill_md_text: Option<&str>,
    version: &str,
    owner_handle: &str,
    dest_dir: String,
    created_at: u64,
) -> (s: Skill)
    ensures
        is_clawhub_skill(
            s,
            slug@,
            match skill_md_text {
                Some(t) => Some(t@),
                None => None,
            },
            version@,
            owner_handle@,
            dest_dir@,
            created_at,
        ),
        s.working_dir == Some(dest_dir),
{
    let fallback = str_cat("ClawHub 技能: ", slug);
    let (name, description, ver, body) = match skill_md_text {
        Some(t) => {
            let p = parse_skill_md(t);
            (
                or_else_string(p.name, slug),
                or_else_string(p.description, fallback.as_str()),
                or_else_string(p.version, version),
                p.body,
            )
        },
        None => (slug.to_string(), fallback, version.to_string(), String::new()),
    };
    Skill {
        id: slug.to_string(),
        name,
        description,
        preamble: body,
        tools: Vec::new(),
        working_dir: Some(dest_dir),
        created_at,
        builtin: false,
        source: Some("clawhub".to_string()),
        source_slug: Some(slug.to_string()),
        source_owner: non_empty_string(owner_handle.to_string()),
        source_version: non_empty_string(ver),
    }
}

/// The instructions a skill injects: its stored preamble, else the body of
/// the `SKILL.md` read from its directory, else nothing.
pub open spec fn effective_preamble(preamble: Seq<char>, working_dir_skill_md: Option<Seq<char>>) -> Seq<char> {
    if preamble.len() > 0 {
        preamble
    } else {
        match working_dir_skill_md {
            Some(t) => skill_md(t).body,
            None => Seq::empty(),
        }
    }
}

/// The instructions of `skill`, given the `SKILL.md` in its directory when
/// one could be read.
pub fn resolve_preamble(skill: &Skill, skill_md_text: Option<&str>) -> (r: String)
    ensures
        r@ == effective_preamble(skill.preamble@, match skill_md_text { Some(t) => Some(t@), None => None }),
{
    if !skill.preamble.as_str().is_empty() {
        return skill.preamble.clone();
    }
    match skill_md_text {
        Some(t) => parse_skill_md(t).body,
        None => String::new(),
    }
}

/// Number of skills of `all`, from position `i` on, whose id starts with `target`.
pub open spec fn prefix_count(all: Seq<Skill>, target: Seq<char>, i: int) -> nat
    decreases all.len() - i,
{
    if i < 0 || i >= all.len() {
        0
    } else {
        (if starts_with(all[i].id@, target) { 1nat } else { 0nat }) + prefix_count(all, target, i + 1)
    }
}

/// Position of the first skill, from `i` on, whose id starts with `target`.
pub open spec fn first_prefix(all: Seq<Skill>, target: Seq<char>, i: int) -> Option<int>
    decreases all.len() - i,
{
    if i < 0 || i >= all.len() {
        None
    } else if starts_with(all[i].id@, target) {
        Some(i)
    } else {
        first_prefix(all, target, i + 1)
    }
}

/// Position of the first skill, from `i` on, whose id is `target`.
pub open spec fn first_exact(all: Seq<Skill>, target: Seq<char>, i: int) -> Option<int>
    decreases all.len() - i,
{
    if i < 0 || i >= all.len() {
        None
    } else if all[i].id@ == target {
        Some(i)
    } else {
        first_exact(all, target, i + 1)
    }
}

/// The skill an id names: the only one whose id starts with it, else, when
/// none does, one whose id equals it; several prefix matches name none.
pub open spec fn unique_match(all: Seq<Skill>, target: Seq<char>) -> Option<int> {
    let n = prefix_count(all, target, 0);
    if n == 1 {
        first_prefix(all, target, 0)
    } else if n == 0 {
        first_exact(all, target, 0)
    } else {
        None
    }
}

/// Finds the skill an id names (see `unique_match`).
pub fn find_unique(all: &Vec<Skill>, target: &str) -> (r: Option<usize>)
    ensures
        r matches Some(i) ==> i < all.len() && unique_match(all@, target@) == Some(i as int),
        r is None ==> unique_match(all@, target@) is None,
{
    let t = chars_of(target);
    let mut count: usize = 0;
    let mut first: Option<usize> = None;
    let mut exact: Option<usize> = None;
    let mut i: usize = all.len();
    while i > 0
        invariant
            i <= all.len(),
            t@ == target@,
            count == prefix_count(all@, target@, i as int),
            count <= all.len() - i,
            first matches Some(k) ==> k < all.len() && first_prefix(all@, target@, i as int) == Some(k as int),
            first is None ==> first_prefix(all@, target@, i as int) is None,
            exact matches Some(k) ==> k < all.len() && first_exact(all@, target@, i as int) == Some(k as int),
            exact is None ==> first_exact(all@, target@, i as int) is None,
        decreases i,
    {
        i = i - 1;
        let id = chars_of(all[i].id.as_str());
        if has_prefix(&id, &t) {
            count = count + 1;
            first = Some(i);
        }
        if crate::text::eq_chars(&id, &t) {
            exact = Some(i);
        }
    }
    if count == 1 {
        first
    } else if count == 0 {
        exact
    } else {
        None
    }
}

/// Finds the first skill whose id starts with `target`.
pub fn find_first_prefix(all: &Vec<Skill>, target: &str) -> (r: Option<usize>)
    ensures
        r matches Some(i) ==> i < all.len() && first_prefix(all@, target@, 0) == Some(i as int),
        r is None ==> first_prefix(all@, target@, 0) is None,
{
    let t = chars_of(target);
    let mut i: usize = 0;
    while i < all.len()
        invariant
            i <= all.len(),
            t@ == target@,
            first_prefix(all@, target@, 0) == first_prefix(all@, target@, i as int),
        decreases all.len() - i,
    {
        let id = chars_of(all[i].id.as_str());
        if has_prefix(&id, &t) {
            return Some(i);
        }
        i = i + 1;
    }
    None
}

/// The skill a detail request names: the one whose id equals `target`,
/// else the one that `unique_match` picks.
pub open spec fn detail_match(all: Seq<Skill>, target: Seq<char>) -> Option<int> {
    match first_exact(all, target, 0) {
        Some(i) => Some(i),
        None => unique_match(all, target),
    }
}

/// Finds the skill a detail request names (see `detail_match`).
pub fn find_detail_skill(all: &Vec<Skill>, target: &str) -> (r: Option<usize>)
    ensures
        r matches Some(i) ==> i < all.len() && detail_match(all@, target@) == Some(i as int),
        r is None ==> detail_match(all@, target@) is None,
{
    let t = chars_of(target);
    let mut i: usize = 0;
    while i < all.len()
        invariant
            i <= all.len(),
            t@ == target@,
            first_exact(all@, target@, 0) == first_exact(all@, target@, i as int),
        decreases all.len() - i,
    {
        let id = chars_of(all[i].id.as_str());
        if crate::text::eq_chars(&id, &t) {
            return Some(i);
        }
        i = i + 1;
    }
    find_unique(all, target)
}

/// The skill an enable request names: the one whose id equals `target`,
/// else the first whose id starts with it.
pub open spec fn enable_match(all: Seq<Skill>, target: Seq<char>) -> Option<int> {
    match first_exact(all, target, 0) {
        Some(i) => Some(i),
        None => first_prefix(all, target, 0),
    }
}

/// Finds the skill an enable request names (see `enable_match`).
pub fn find_enable_skill(all: &Vec<Skill>, target: &str) -> (r: Option<usize>)
    ensures
        r matches Some(i) ==> i < all.len() && enable_match(all@, target@) == Some(i as int),
        r is None ==> enable_match(all@, target@) is None,
{
    let t = chars_of(target);
    let mut i: usize = 0;
    while i < all.len()
        invariant
            i <= all.len(),
            t@ == target@,
            first_exact(all@, target@, 0) == first_exact(all@, target@, i as int),
        decreases all.len() - i,
    {
        let id = chars_of(all[i].id.as_str());
        if crate::text::eq_chars(&id, &t) {
            return Some(i);
        }
        i = i + 1;
    }
    find_first_prefix(all, target)
}

} // verus!
