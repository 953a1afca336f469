//! Writing a file: arguments, the content check, and the report.

use vstd::prelude::*;
use crate::codebase::keywords::utf8_len;
use crate::text::{byte_len, chars_of, dec, dec_chars, extend_chars, string_of};
use crate::text_utils::{content_of, extract_content};

verus! {

/// Arguments of a write.
pub struct WriteFileArgs {
    pub path: String,
    /// The content, bare or wrapped in `<content>` or CDATA.
    pub content: String,
    /// Append instead of overwriting.
    pub append: Option<bool>,
}

/// A refused or failed call, by its message.
#[derive(Debug)]
pub struct WriteFileError(pub String);

impl WriteFileError {
    /// The text the error shows.
    pub fn message(&self) -> (r: String)
        ensures
            r@ == "write_file error: "@ + self.0@,
    {
        crate::text::str_cat("write_file error: ", self.0.as_str())
    }
}

/// Writes local files; `cwd` is the workspace, when one is set.
pub struct WriteFileTool {
    pub cwd: Option<String>,
}

impl WriteFileTool {
    /// Without a workspace.
    pub fn new() -> (t: WriteFileTool)
        ensures
            t.cwd is None,
    {
        WriteFileTool { cwd: None }
    }

    /// With the workspace `cwd`.
    pub fn with_cwd(cwd: String) -> (t: WriteFileTool)
        ensures
            t.cwd == Some(cwd),
    {
        WriteFileTool { cwd: Some(cwd) }
    }
}

/// Largest content of one write, in bytes (1 MiB).
pub const MAX_WRITE_BYTES: usize = 1048576;

/// The byte length of `s`, as a `usize` counts it.
pub open spec fn usize_len(s: Seq<char>) -> nat {
    if byte_len(s) <= usize::MAX {
        byte_len(s)
    } else {
        usize::MAX as nat
    }
}

/// What is written: the content unwrapped from its `<content>` or CDATA
/// wrapper, and whether it is appended.
pub struct PreparedWrite {
    pub content: String,
    pub append: bool,
}

/// Reads a write request: unwraps the content, and refuses content of more
/// than 1 MiB.
pub fn prepare_write(args: &WriteFileArgs) -> (r: Result<PreparedWrite, WriteFileError>)
    ensures
        byte_len(content_of(args.content@)) <= MAX_WRITE_BYTES <==> r is Ok,
        r matches Ok(w) ==> w.content@ == content_of(args.content@) && w.append == (
        args.append == Some(true)),
        r matches Err(e) ==> e.0@ == "内容过大（"@ + dec(usize_len(content_of(args.content@)))
            + " 字节），超过单次写入上限 1048576 字节"@,
{
    let content = extract_content(args.content.as_str());
    let cs = chars_of(content.as_str());
    let n = utf8_len(&cs);
    if n > MAX_WRITE_BYTES {
        let mut out: Vec<char> = Vec::new();
        let a = chars_of("内容过大（");
        extend_chars(&mut out, &a);
        let d = dec_chars(n as u64);
        extend_chars(&mut out, &d);
        let b = chars_of(" 字节），超过单次写入上限 1048576 字节");
        extend_chars(&mut out, &b);
        return Err(WriteFileError(string_of(&out)));
    }
    let append = match args.append {
        Some(b) => b,
        None => false,
    };
    Ok(PreparedWrite { content, append })
}

/// The reply after `bytes` bytes were written to `path`.
pub fn write_report(append: bool, path: &str, bytes: usize) -> (r: String)
    ensures
        r@ == "已"@ + (if append { "追加"@ } else { "覆盖"@ }) + "写入 "@ + path@ + " ("@ + dec(
            bytes as nat,
        ) + " 字节)"@,
{
    let mut out: Vec<char> = Vec::new();
    let a = chars_of(if append { "已追加写入 " } else { "已覆盖写入 " });
    extend_chars(&mut out, &a);
    let p = chars_of(path);
    extend_chars(&mut out, &p);
    let b = chars_of(" (");
    extend_chars(&mut out, &b);
    let d = dec_chars(bytes as u64);
    extend_chars(&mut out, &d);
    let c = chars_of(" 字节)");
    extend_chars(&mut out, &c);
    proof {
        reveal_strlit("已追加写入 ");
        reveal_strlit("已覆盖写入 ");
        reveal_strlit("已");
        reveal_strlit("追加");
        reveal_strlit("覆盖");
        reveal_strlit("写入 ");
    }
    assert(out@ =~= "已"@ + (if append { "追加"@ } else { "覆盖"@ }) + "写入 "@ + path@ + " ("@ + dec(
        bytes as nat,
    ) + " 字节)"@);
    string_of(&out)
}

} // verus!
