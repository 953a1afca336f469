//! Running a shell command: arguments, timeout, and the report of its output.

use vstd::prelude::*;
use crate::text::{chars_of, dec, dec_chars, extend_chars, string_of};

verus! {

/// Arguments of a command.
pub struct ShellArgs {
    pub command: String,
    /// `auto`, `bash`, `cmd`, `powershell` or `sh`.
    pub shell: Option<String>,
    /// Timeout in milliseconds (30 000 by default).
    pub timeout_ms: Option<u64>,
}

/// A refused or failed call, by its message.
#[derive(Debug)]
pub struct ShellError(pub String);

impl ShellError {
    /// The text the error shows.
    pub fn message(&self) -> (r: String)
        ensures
            r@ == "shell error: "@ + self.0@,
    {
        crate::text::str_cat("shell error: ", self.0.as_str())
    }
}

/// Runs shell commands; `cwd` is the workspace, when one is set.
pub struct ShellTool {
    pub cwd: Option<String>,
}

impl ShellTool {
    /// Without a workspace.
    pub fn new() -> (t: ShellTool)
        ensures
            t.cwd is None,
    {
        ShellTool { cwd: None }
    }

    /// With the workspace `cwd`.
    pub fn with_cwd(cwd: String) -> (t: ShellTool)
        ensures
            t.cwd == Some(cwd),
    {
        ShellTool { cwd: Some(cwd) }
    }
}

/// Timeout when none is given, in milliseconds.
pub const DEFAULT_TIMEOUT_MS: u64 = 30000;
/// Most output bytes returned.
pub const MAX_OUTPUT_BYTES: usize = 8192;

/// The timeout used: the given one (30 000 ms when none), at least 1 ms.
pub fn effective_timeout(timeout_ms: Option<u64>) -> (r: u64)
    ensures
        r == match timeout_ms {
            Some(t) => if t == 0 { 1 } else { t },
            None => DEFAULT_TIMEOUT_MS,
        },
{
    let t = match timeout_ms {
        Some(t) => t,
        None => DEFAULT_TIMEOUT_MS,
    };
    if t == 0 { 1 } else { t }
}

/// A UTF-8 continuation byte (`10xxxxxx`).
pub open spec fn is_continuation(b: u8) -> bool {
    0x80 <= b < 0xC0
}

/// The nearest position at or before `i` that is 0 or starts a character.
pub open spec fn boundary_before(bytes: Seq<u8>, i: nat) -> nat
    decreases i,
{
    if i == 0 || !is_continuation(bytes[i as int]) {
        i
    } else {
        boundary_before(bytes, (i - 1) as nat)
    }
}

/// How many bytes of the output are returned: all of them when they are at
/// most 8 KiB, else up to the character boundary at or before 8 KiB.
pub open spec fn kept_bytes(bytes: Seq<u8>) -> nat {
    if bytes.len() <= MAX_OUTPUT_BYTES {
        bytes.len()
    } else {
        boundary_before(bytes, MAX_OUTPUT_BYTES as nat)
    }
}

proof fn lemma_boundary_le(bytes: Seq<u8>, i: nat)
    ensures
        boundary_before(bytes, i) <= i,
    decreases i,
{
    if i > 0 && is_continuation(bytes[i as int]) {
        lemma_boundary_le(bytes, (i - 1) as nat);
    }
}

/// Finds the number of output bytes to return (see `kept_bytes`).
pub fn output_cut(bytes: &Vec<u8>) -> (n: usize)
    ensures
        n as nat == kept_bytes(bytes@),
        n <= bytes.len(),
{
    if bytes.len() <= MAX_OUTPUT_BYTES {
        return bytes.len();
    }
    let mut end: usize = MAX_OUTPUT_BYTES;
    while end > 0 && 0x80 <= bytes[end] && bytes[end] < 0xC0
        invariant
            end <= MAX_OUTPUT_BYTES < bytes.len(),
            boundary_before(bytes@, end as nat) == boundary_before(bytes@, MAX_OUTPUT_BYTES as nat),
        decreases end,
    {
        end = end - 1;
    }
    end
}

/// The text of a byte string, with invalid UTF-8 replaced by U+FFFD
/// (`String::from_utf8_lossy`).
pub uninterp spec fn utf8_lossy(bytes: Seq<u8>) -> Seq<char>;

/// Decodes bytes as `String::from_utf8_lossy` does.
#[verifier::external_body]
fn lossy_text(bytes: &[u8]) -> (r: String)
    ensures
        r@ == utf8_lossy(bytes@),
{
    String::from_utf8_lossy(bytes).into_owned()
}

/// An integer in decimal, with a minus sign when negative.
pub open spec fn int_text(x: int) -> Seq<char> {
    if x < 0 {
        seq!['-'] + dec((-x) as nat)
    } else {
        dec(x as nat)
    }
}

fn int_chars(x: i32) -> (v: Vec<char>)
    ensures
        v@ == int_text(x as int),
{
    if x < 0 {
        let m: u64 = (-(x as i64)) as u64;
        let mut v: Vec<char> = Vec::new();
        v.push('-');
        let d = dec_chars(m);
        extend_chars(&mut v, &d);
        v
    } else {
        dec_chars(x as u64)
    }
}

/// The report of a finished command: its exit code (-1 when it has none),
/// then stdout followed by stderr, cut as `kept_bytes` says and decoded, and
/// a note with both sizes when something was cut.
pub open spec fn shell_report(stdout: Seq<u8>, stderr: Seq<u8>, code: Option<i32>) -> Seq<char> {
    let all = stdout + stderr;
    let take = kept_bytes(all);
    let code_num: int = match code {
        Some(c) => c as int,
        None => -1,
    };
    "exit code: "@ + int_text(code_num) + seq!['\n'] + utf8_lossy(all.take(take as int)) + if all.len()
        > MAX_OUTPUT_BYTES {
        "\n\n[输出已截断：总 "@ + dec(all.len()) + " 字节，仅返回前 "@ + dec(take) + " 字节]"@
    } else {
        Seq::<char>::empty()
    }
}

fn push_text(out: &mut Vec<char>, s: &str)
    ensures
        final(out)@ == old(out)@ + s@,
{
    let c = chars_of(s);
    extend_chars(out, &c);
}

/// Builds the report of a finished command (see `shell_report`).
pub fn report_output(stdout: &Vec<u8>, stderr: &Vec<u8>, code: Option<i32>) -> (r: String)
    ensures
        r@ == shell_report(stdout@, stderr@, code),
{
    let mut all: Vec<u8> = Vec::new();
    let mut i: usize = 0;
    while i < stdout.len()
        invariant
            i <= stdout.len(),
            all@ == stdout@.take(i as int),
        decreases stdout.len() - i,
    {
        all.push(stdout[i]);
        i = i + 1;
        assert(all@ =~= stdout@.take(i as int));
    }
    assert(stdout@.take(i as int) =~= stdout@);
    let mut j: usize = 0;
    while j < stderr.len()
        invariant
            j <= stderr.len(),
            all@ == stdout@ + stderr@.take(j as int),
        decreases stderr.len() - j,
    {
        all.push(stderr[j]);
        j = j + 1;
        assert(all@ =~= stdout@ + stderr@.take(j as int));
    }
    assert(stderr@.take(j as int) =~= stderr@);
    let take = output_cut(&all);
    let body = lossy_text(vstd::slice::slice_subrange(all.as_slice(), 0, take));
    let mut out: Vec<char> = Vec::new();
    push_text(&mut out, "exit code: ");
    let c: i32 = match code {
        Some(c) => c,
        None => -1,
    };
    let cc = int_chars(c);
    extend_chars(&mut out, &cc);
    out.push('\n');
    push_text(&mut out, body.as_str());
    if all.len() > MAX_OUTPUT_BYTES {
        push_text(&mut out, "\n\n[输出已截断：总 ");
        let a = dec_chars(all.len() as u64);
        extend_chars(&mut out, &a);
        push_text(&mut out, " 字节，仅返回前 ");
        let t = dec_chars(take as u64);
        extend_chars(&mut out, &t);
        push_text(&mut out, " 字节]");
    }
    string_of(&out)
}

/// The error for a command that ran past its timeout.
pub fn timeout_message(timeout_ms: u64, command: &str) -> (r: String)
    ensures
        r@ == "命令超时（"@ + dec(timeout_ms as nat) + "ms），可能已挂死 ["@ + command@ + "]"@,
{
    let mut out: Vec<char> = Vec::new();
    push_text(&mut out, "命令超时（");
    let d = dec_chars(timeout_ms);
    extend_chars(&mut out, &d);
    push_text(&mut out, "ms），可能已挂死 [");
    push_text(&mut out, command);
    push_text(&mut out, "]");
    string_of(&out)
}

} // verus!
