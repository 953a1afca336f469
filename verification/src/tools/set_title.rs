//! Setting the current conversation's title.

use vstd::prelude::*;
use crate::text::{chars_of, slice_chars, str_cat, string_of, trim, trim_chars};

verus! {

/// Arguments: the new title.
pub struct SetTitleArgs {
    pub title: String,
}

/// A refused or failed call, by its message.
#[derive(Debug)]
pub struct SetTitleError(pub String);

impl SetTitleError {
    /// The text the error shows.
    pub fn message(&self) -> (r: String)
        ensures
            r@ == "set title error: "@ + self.0@,
    {
        crate::text::str_cat("set title error: ", self.0.as_str())
    }
}

/// Longest title, in characters.
pub const MAX_TITLE_CHARS: usize = 25;

/// The title that is stored: trimmed, and cut to its first 25 characters.
pub open spec fn clean_title(title: Seq<char>) -> Seq<char> {
    let t = trim(title);
    if t.len() > MAX_TITLE_CHARS {
        t.take(MAX_TITLE_CHARS as int)
    } else {
        t
    }
}

/// Checks a call: a blank title is refused first, then a call without a
/// current conversation. Otherwise gives the conversation's id and the
/// title to store.
pub fn plan_set_title(args: &SetTitleArgs, current: &Option<String>) -> (r: Result<(String, String), SetTitleError>)
    ensures
        trim(args.title@).len() == 0 ==> (r matches Err(e) && e.0@ == "title 不能为空"@),
        trim(args.title@).len() > 0 && current.is_none() ==> (r matches Err(e) && e.0@
            == "当前未选中会话，无法设置标题"@),
        trim(args.title@).len() > 0 && current.is_some() ==> (r matches Ok((id, t)) && id@
            == current.unwrap()@ && t@ == clean_title(args.title@)),
{
    let c = chars_of(args.title.as_str());
    let t = trim_chars(&c);
    if t.len() == 0 {
        return Err(SetTitleError("title 不能为空".to_string()));
    }
    let kept = if t.len() > MAX_TITLE_CHARS {
        slice_chars(&t, 0, MAX_TITLE_CHARS)
    } else {
        slice_chars(&t, 0, t.len())
    };
    assert(t@.subrange(0, t@.len() as int) =~= t@);
    match current {
        None => Err(SetTitleError("当前未选中会话，无法设置标题".to_string())),
        Some(id) => Ok((id.clone(), string_of(&kept))),
    }
}

/// The reply after the title was stored.
pub fn title_reply(title: &str) -> (r: String)
    ensures
        r@ == "已更新会话标题为："@ + title@,
{
    str_cat("已更新会话标题为：", title)
}

} // verus!
